//! The decisions of the control window: editing and checking a curve,
//! what applying a profile does and in which order, what the status line
//! says, and what each poll of the hardware sets off.

use vstd::prelude::*;
use crate::profiles::{
    Config, ConfigView, Profile, ProfileView, binding_views, copy_curve, first_named, mode_name,
    mode_name_spec, opt_string, profile_views,
};
use crate::text::{decimal, i64_to_string, str_eq};

verus! {

/// Sets point `idx` of the curve being edited to `temp` (kept to 0..=120 C)
/// and `rpm` (kept to 0..=`max_rpm`).  Returns whether there was such a
/// point.
pub fn edit_point(draft: &mut Vec<(i32, i32)>, idx: i32, temp: i32, rpm: i32, max_rpm: i32) -> (r: bool)
    requires
        max_rpm >= 0,
    ensures
        r == (0 <= idx < old(draft)@.len()),
        r ==> final(draft)@ == old(draft)@.update(
            idx as int,
            (crate::curve::clamp(temp as int, 0, 120) as i32, crate::curve::clamp(rpm as int, 0, max_rpm as int) as i32),
        ),
        !r ==> final(draft)@ == old(draft)@,
{
    if idx < 0 || idx as usize >= draft.len() {
        return false;
    }
    let t = if temp < 0 {
        0
    } else if temp > 120 {
        120
    } else {
        temp
    };
    let r = if rpm < 0 {
        0
    } else if rpm > max_rpm {
        max_rpm
    } else {
        rpm
    };
    draft.set(idx as usize, (t, r));
    true
}

/// The message for a curve whose point `i` (counted from 0) is colder than
/// the one before it.
pub open spec fn descent_message(pts: Seq<(i32, i32)>, i: int) -> Seq<char> {
    "point "@ + decimal(i + 1) + " temperature ("@ + decimal(pts[i].0 as int) + "C) is below point "@
        + decimal(i) + " ("@ + decimal(pts[i - 1].0 as int) + "C) — must increase"@
}

/// The firmware rejects a table whose trip temperatures do not increase, so
/// a curve is checked before it is written, naming the first point that is
/// wrong.
pub fn curve_order_error(pts: &Vec<(i32, i32)>) -> (r: Option<String>)
    requires
        pts@.len() < 0x1000_0000,
    ensures
        match r {
            None => forall|i: int| 1 <= i < pts@.len() ==> (#[trigger] pts@[i]).0 >= pts@[i - 1].0,
            Some(m) => exists|i: int| 1 <= i < pts@.len() && pts@[i].0 < pts@[i - 1].0
                && (forall|j: int| 1 <= j < i ==> (#[trigger] pts@[j]).0 >= pts@[j - 1].0)
                && m@ == descent_message(pts@, i),
        },
{
    let mut i: usize = 1;
    while i < pts.len()
        invariant
            1 <= i,
            pts@.len() < 0x1000_0000,
            i <= pts@.len() || pts@.len() == 0,
            forall|j: int| 1 <= j < i && j < pts@.len() ==> (#[trigger] pts@[j]).0 >= pts@[j - 1].0,
        decreases pts@.len() - i,
    {
        if pts[i].0 < pts[i - 1].0 {
            let mut m = String::from_str("point ");
            m.append(i64_to_string((i + 1) as i64).as_str());
            m.append(" temperature (");
            m.append(i64_to_string(pts[i].0 as i64).as_str());
            m.append("C) is below point ");
            m.append(i64_to_string(i as i64).as_str());
            m.append(" (");
            m.append(i64_to_string(pts[i - 1].0 as i64).as_str());
            m.append("C) — must increase");
            assert(m@ =~= descent_message(pts@, i as int));
            return Some(m);
        }
        i = i + 1;
    }
    None
}

/// The status line after an operation: the errors joined with `; `, or
/// the success message.
pub open spec fn join_errors(errs: Seq<Seq<char>>) -> Seq<char>
    decreases errs.len(),
{
    if errs.len() == 0 {
        Seq::empty()
    } else if errs.len() == 1 {
        errs[0]
    } else {
        join_errors(errs.drop_last()) + "; "@ + errs.last()
    }
}

pub open spec fn string_views(v: Seq<String>) -> Seq<Seq<char>> {
    v.map_values(|x: String| x@)
}

/// What the status line shows: whether it is an error, and its text.
pub fn report(errs: &Vec<String>, ok: &str) -> (r: (bool, String))
    ensures
        errs@.len() == 0 ==> !r.0 && r.1@ == ok@,
        errs@.len() > 0 ==> r.0 && r.1@ == join_errors(string_views(errs@)),
{
    if errs.len() == 0 {
        return (false, ok.to_owned());
    }
    let mut m = errs[0].clone();
    let mut i: usize = 1;
    let ghost ev = string_views(errs@);
    assert(ev.take(1) =~= seq![ev[0]]);
    assert(join_errors(ev.take(1)) == ev[0]);
    while i < errs.len()
        invariant
            1 <= i <= errs@.len(),
            ev == string_views(errs@),
            m@ == join_errors(ev.take(i as int)),
        decreases errs@.len() - i,
    {
        assert(ev.take(i + 1).drop_last() =~= ev.take(i as int));
        assert(ev.take(i + 1).last() == errs@[i as int]@);
        m.append("; ");
        m.append(errs[i].as_str());
        i = i + 1;
    }
    assert(ev.take(errs@.len() as int) =~= ev);
    (true, m)
}

/// The status after a voltage offset is applied.
pub fn undervolt_status(mv: i32) -> (r: String)
    ensures
        mv == 0 ==> r@ == "voltage offset cleared"@,
        mv < 0 ==> r@ == decimal(mv as int) + " mV applied - not persistent until 'Re-apply at boot'"@,
        mv > 0 ==> r@ == "+"@ + decimal(mv as int) + " mV OVERVOLT applied - raises heat and wear"@,
{
    if mv == 0 {
        String::from_str("voltage offset cleared")
    } else if mv < 0 {
        let mut m = i64_to_string(mv as i64);
        m.append(" mV applied - not persistent until 'Re-apply at boot'");
        m
    } else {
        let mut m = String::from_str("+");
        m.append(i64_to_string(mv as i64).as_str());
        m.append(" mV OVERVOLT applied - raises heat and wear");
        m
    }
}

/// The status after a charge mode change, from the switches as read back.
pub fn charge_status(conservation: bool, rapid: bool) -> (r: &'static str)
    ensures
        conservation ==> r@ == "conservation mode on — charging stops near 60%"@,
        !conservation && rapid ==> r@ == "rapid charge on"@,
        !conservation && !rapid ==> r@ == "normal charging"@,
{
    if conservation {
        "conservation mode on — charging stops near 60%"
    } else if rapid {
        "rapid charge on"
    } else {
        "normal charging"
    }
}

/// The status after a keyboard backlight change.
pub fn kbd_status(level: i32) -> (r: String)
    ensures
        level == 0 ==> r@ == "keyboard backlight off"@,
        level != 0 ==> r@ == "keyboard backlight level "@ + decimal(level as int),
{
    if level == 0 {
        String::from_str("keyboard backlight off")
    } else {
        let mut m = String::from_str("keyboard backlight level ");
        m.append(i64_to_string(level as i64).as_str());
        m
    }
}


/// One step of applying a profile.
#[derive(Debug, PartialEq, Eq)]
pub enum Action {
    SetPowermode(i32),
    /// Wait for the controller to reload its fan table after a mode change.
    Sleep(u64),
    /// PL1 (W), PL2 (W), PL1 window (s).
    SetPower(i32, i32, i32),
    SetUndervolt(i32),
    SetMaxPerf(i32),
    /// GPU TGP and PPAB limits (W).
    SetGpu(i32, i32),
    /// A numeric setting of the embedded controller.
    SetEc(&'static str, i32),
    SetKbdBacklight(i32),
    SetRefresh(i32),
    WriteCurve(Vec<(i32, i32)>),
    /// Pin the fan to full speed.
    FanFullspeed,
}

pub enum ActionView {
    SetPowermode(i32),
    Sleep(u64),
    SetPower(i32, i32, i32),
    SetUndervolt(i32),
    SetMaxPerf(i32),
    SetGpu(i32, i32),
    SetEc(Seq<char>, i32),
    SetKbdBacklight(i32),
    SetRefresh(i32),
    WriteCurve(Seq<(i32, i32)>),
    FanFullspeed,
}

impl View for Action {
    type V = ActionView;

    open spec fn view(&self) -> ActionView {
        match self {
            Action::SetPowermode(m) => ActionView::SetPowermode(*m),
            Action::Sleep(ms) => ActionView::Sleep(*ms),
            Action::SetPower(a, b, c) => ActionView::SetPower(*a, *b, *c),
            Action::SetUndervolt(v) => ActionView::SetUndervolt(*v),
            Action::SetMaxPerf(v) => ActionView::SetMaxPerf(*v),
            Action::SetGpu(a, b) => ActionView::SetGpu(*a, *b),
            Action::SetEc(n, v) => ActionView::SetEc(n@, *v),
            Action::SetKbdBacklight(v) => ActionView::SetKbdBacklight(*v),
            Action::SetRefresh(v) => ActionView::SetRefresh(*v),
            Action::WriteCurve(c) => ActionView::WriteCurve(c@),
            Action::FanFullspeed => ActionView::FanFullspeed,
        }
    }
}

pub open spec fn action_views(v: Seq<Action>) -> Seq<ActionView> {
    v.map_values(|a: Action| a@)
}

pub open spec fn ec_if(node: Seq<char>, val: i32) -> Seq<ActionView> {
    if val > 0 {
        seq![ActionView::SetEc(node, val)]
    } else {
        Seq::empty()
    }
}

/// The firmware extras of a profile: each limit it sets, its backlight
/// level and its refresh rate; the values that mean "leave alone" (0, or -1
/// for the backlight) are skipped.
pub open spec fn extras_spec(p: ProfileView) -> Seq<ActionView> {
    ec_if("cpu_temperature_limit"@, p.cpu_temp_limit)
        + ec_if("gpu_temperature_limit"@, p.gpu_temp_limit)
        + ec_if("gpu_oc"@, p.gpu_boost)
        + ec_if("gpu_power_target_offset"@, p.gpu_target_offset)
        + (if p.kbd_backlight >= 0 { seq![ActionView::SetKbdBacklight(p.kbd_backlight)] } else { Seq::empty() })
        + (if p.refresh_hz > 0 { seq![ActionView::SetRefresh(p.refresh_hz)] } else { Seq::empty() })
}

fn push_ec(v: &mut Vec<Action>, node: &'static str, val: i32)
    ensures
        action_views(final(v)@) == action_views(old(v)@) + ec_if(node@, val),
{
    let ghost before = action_views(v@);
    if val > 0 {
        v.push(Action::SetEc(node, val));
        assert(action_views(v@) =~= before + ec_if(node@, val));
    } else {
        assert(action_views(v@) =~= before + ec_if(node@, val));
    }
}

/// The profile's firmware extras, appended to `v`.
fn push_extras(v: &mut Vec<Action>, p: &Profile)
    ensures
        action_views(final(v)@) == action_views(old(v)@) + extras_spec(p@),
{
    let ghost start = action_views(v@);
    push_ec(v, "cpu_temperature_limit", p.cpu_temp_limit);
    push_ec(v, "gpu_temperature_limit", p.gpu_temp_limit);
    push_ec(v, "gpu_oc", p.gpu_boost);
    push_ec(v, "gpu_power_target_offset", p.gpu_target_offset);
    let ghost mid = action_views(v@);
    if p.kbd_backlight >= 0 {
        v.push(Action::SetKbdBacklight(p.kbd_backlight));
    }
    let ghost mid2 = action_views(v@);
    assert(mid2 =~= mid + (if p.kbd_backlight >= 0 { seq![ActionView::SetKbdBacklight(p.kbd_backlight)] } else { Seq::empty() }));
    if p.refresh_hz > 0 {
        v.push(Action::SetRefresh(p.refresh_hz));
    }
    assert(action_views(v@) =~= mid2 + (if p.refresh_hz > 0 { seq![ActionView::SetRefresh(p.refresh_hz)] } else { Seq::empty() }));
    assert(action_views(v@) =~= start + extras_spec(p@));
}

pub fn apply_profile_extras(p: &Profile) -> (r: Vec<Action>)
    ensures
        action_views(r@) == extras_spec(p@),
{
    let mut v: Vec<Action> = Vec::new();
    push_extras(&mut v, p);
    assert(action_views(v@) =~= extras_spec(p@));
    v
}

/// A mode switch first, when the profile names one: it resets the EC fan
/// table, so anything applied before it would be overwritten.
pub open spec fn mode_prefix(p: ProfileView) -> Seq<ActionView> {
    if p.powermode != 0 {
        seq![ActionView::SetPowermode(p.powermode), ActionView::Sleep(600)]
    } else {
        Seq::empty()
    }
}

/// Applying a profile from the window: mode, power limits, voltage offset,
/// CPU ceiling, GPU limits when set, firmware extras, the curve, and last
/// the full-speed pin, because writing the curve clears it.
pub open spec fn apply_spec(p: ProfileView) -> Seq<ActionView> {
    mode_prefix(p)
        + seq![
            ActionView::SetPower(p.pl1, p.pl2, p.tau),
            ActionView::SetUndervolt(p.undervolt_mv),
            ActionView::SetMaxPerf(p.max_perf_pct),
        ]
        + (if p.gpu_ctgp > 0 || p.gpu_ppab > 0 { seq![ActionView::SetGpu(p.gpu_ctgp, p.gpu_ppab)] } else { Seq::empty() })
        + extras_spec(p)
        + seq![ActionView::WriteCurve(p.curve)]
        + (if p.fan_fullspeed { seq![ActionView::FanFullspeed] } else { Seq::empty() })
}

/// Applying the profile bound to a power source that was just plugged or
/// unplugged: as from the window, without GPU limits or the full-speed pin.
pub open spec fn source_spec(p: ProfileView) -> Seq<ActionView> {
    mode_prefix(p)
        + seq![
            ActionView::SetPower(p.pl1, p.pl2, p.tau),
            ActionView::SetUndervolt(p.undervolt_mv),
            ActionView::SetMaxPerf(p.max_perf_pct),
        ]
        + extras_spec(p)
        + seq![ActionView::WriteCurve(p.curve)]
}

/// Applying the profile bound to a desktop power plan that just became
/// active: as for a power source, then the full-speed pin when set.
pub open spec fn plan_spec(p: ProfileView) -> Seq<ActionView> {
    source_spec(p) + (if p.fan_fullspeed { seq![ActionView::FanFullspeed] } else { Seq::empty() })
}

/// Re-applying the profile bound to a power mode the machine just entered:
/// the mode change reloaded the EC table, so power limits and the curve.
pub open spec fn mode_bound_spec(p: ProfileView) -> Seq<ActionView> {
    seq![ActionView::SetPower(p.pl1, p.pl2, p.tau), ActionView::WriteCurve(p.curve)]
}

fn push_mode_prefix(v: &mut Vec<Action>, p: &Profile)
    ensures
        action_views(final(v)@) == action_views(old(v)@) + mode_prefix(p@),
{
    let ghost before = action_views(v@);
    if p.powermode != 0 {
        v.push(Action::SetPowermode(p.powermode));
        v.push(Action::Sleep(600));
    }
    assert(action_views(v@) =~= before + mode_prefix(p@));
}

fn push_core(v: &mut Vec<Action>, p: &Profile)
    ensures
        action_views(final(v)@) == action_views(old(v)@) + seq![
            ActionView::SetPower(p@.pl1, p@.pl2, p@.tau),
            ActionView::SetUndervolt(p@.undervolt_mv),
            ActionView::SetMaxPerf(p@.max_perf_pct),
        ],
{
    let ghost before = action_views(v@);
    v.push(Action::SetPower(p.pl1, p.pl2, p.tau));
    v.push(Action::SetUndervolt(p.undervolt_mv));
    v.push(Action::SetMaxPerf(p.max_perf_pct));
    assert(action_views(v@) =~= before + seq![
        ActionView::SetPower(p@.pl1, p@.pl2, p@.tau),
        ActionView::SetUndervolt(p@.undervolt_mv),
        ActionView::SetMaxPerf(p@.max_perf_pct),
    ]);
}

fn push_curve(v: &mut Vec<Action>, p: &Profile)
    ensures
        action_views(final(v)@) == action_views(old(v)@) + seq![ActionView::WriteCurve(p@.curve)],
{
    let ghost before = action_views(v@);
    v.push(Action::WriteCurve(copy_curve(&p.curve)));
    assert(action_views(v@) =~= before + seq![ActionView::WriteCurve(p@.curve)]);
}

fn push_fullspeed(v: &mut Vec<Action>, p: &Profile)
    ensures
        action_views(final(v)@) == action_views(old(v)@)
            + (if p@.fan_fullspeed { seq![ActionView::FanFullspeed] } else { Seq::empty() }),
{
    let ghost before = action_views(v@);
    if p.fan_fullspeed {
        v.push(Action::FanFullspeed);
    }
    assert(action_views(v@) =~= before + (if p@.fan_fullspeed { seq![ActionView::FanFullspeed] } else { Seq::empty() }));
}

/// What applying `p` from the window does, in order.
pub fn apply_actions(p: &Profile) -> (r: Vec<Action>)
    ensures
        action_views(r@) == apply_spec(p@),
{
    let mut v: Vec<Action> = Vec::new();
    push_mode_prefix(&mut v, p);
    push_core(&mut v, p);
    let ghost before = action_views(v@);
    if p.gpu_ctgp > 0 || p.gpu_ppab > 0 {
        v.push(Action::SetGpu(p.gpu_ctgp, p.gpu_ppab));
    }
    assert(action_views(v@) =~= before
        + (if p@.gpu_ctgp > 0 || p@.gpu_ppab > 0 { seq![ActionView::SetGpu(p@.gpu_ctgp, p@.gpu_ppab)] } else { Seq::empty() }));
    push_extras(&mut v, p);
    push_curve(&mut v, p);
    push_fullspeed(&mut v, p);
    assert(action_views(v@) =~= apply_spec(p@));
    v
}

/// What applying `p` for a new power source does, in order.
pub fn source_actions(p: &Profile) -> (r: Vec<Action>)
    ensures
        action_views(r@) == source_spec(p@),
{
    let mut v: Vec<Action> = Vec::new();
    push_mode_prefix(&mut v, p);
    push_core(&mut v, p);
    push_extras(&mut v, p);
    push_curve(&mut v, p);
    assert(action_views(v@) =~= source_spec(p@));
    v
}

/// What applying `p` for a new desktop power plan does, in order.
pub fn plan_actions(p: &Profile) -> (r: Vec<Action>)
    ensures
        action_views(r@) == plan_spec(p@),
{
    let mut v = source_actions(p);
    push_fullspeed(&mut v, p);
    v
}

/// What re-applying `p` for a power mode entered from outside does.
pub fn mode_bound_actions(p: &Profile) -> (r: Vec<Action>)
    ensures
        action_views(r@) == mode_bound_spec(p@),
{
    let mut v: Vec<Action> = Vec::new();
    v.push(Action::SetPower(p.pl1, p.pl2, p.tau));
    push_curve(&mut v, p);
    assert(action_views(v@) =~= mode_bound_spec(p@));
    v
}

/// Every way of applying a profile puts the mode switch before everything
/// else and writes the curve after the power limits; the full-speed pin,
/// where it is applied, comes after the curve.
pub proof fn lemma_mode_first_curve_after(p: ProfileView)
    requires
        p.powermode != 0,
    ensures
        apply_spec(p)[0] == ActionView::SetPowermode(p.powermode),
        source_spec(p)[0] == ActionView::SetPowermode(p.powermode),
        plan_spec(p)[0] == ActionView::SetPowermode(p.powermode),
        p.fan_fullspeed ==> apply_spec(p).last() == ActionView::FanFullspeed
            && apply_spec(p)[apply_spec(p).len() - 2] == ActionView::WriteCurve(p.curve),
        p.fan_fullspeed ==> plan_spec(p).last() == ActionView::FanFullspeed
            && plan_spec(p)[plan_spec(p).len() - 2] == ActionView::WriteCurve(p.curve),
{
}


/// The profile bound to power mode `m`: the first binding for it.
pub open spec fn bound_name(bs: Seq<(i32, Seq<char>)>, m: i32) -> Option<Seq<char>>
    decreases bs.len(),
{
    if bs.len() == 0 {
        None
    } else if bs[0].0 == m {
        Some(bs[0].1)
    } else {
        bound_name(bs.drop_first(), m)
    }
}

/// Index of the first profile that follows desktop plan `plan`.
pub open spec fn following_plan(ps: Seq<ProfileView>, plan: Seq<char>) -> Option<int>
    decreases ps.len(),
{
    if ps.len() == 0 {
        None
    } else if ps[0].power_plan == Some(plan) {
        Some(0)
    } else {
        match following_plan(ps.drop_first(), plan) {
            Some(k) => Some(k + 1),
            None => None,
        }
    }
}

/// What the poll remembers between ticks.
pub struct Poll {
    pub last_mode: i32,
    pub last_batt: Option<bool>,
    pub last_plan: Option<String>,
    pub tick: u32,
}

pub struct PollView {
    pub last_mode: i32,
    pub last_batt: Option<bool>,
    pub last_plan: Option<Seq<char>>,
    pub tick: u32,
}

impl View for Poll {
    type V = PollView;

    open spec fn view(&self) -> PollView {
        PollView {
            last_mode: self.last_mode,
            last_batt: self.last_batt,
            last_plan: opt_string(self.last_plan),
            tick: self.tick,
        }
    }
}

/// What one tick sets off.
#[derive(Debug, PartialEq, Eq)]
pub struct Tick {
    /// The powermode changed: re-apply this profile (`mode_bound_actions`).
    pub mode_profile: Option<usize>,
    /// The power source changed: apply this profile (`source_actions`).
    pub source_profile: Option<usize>,
    /// The desktop plan changed: apply this profile (`plan_actions`).
    pub plan_profile: Option<usize>,
    /// The displayed curve follows the hardware again.
    pub clear_dirty: bool,
    /// Time to refresh the slow-moving display fields.
    pub refresh_extras: bool,
}

pub open spec fn opt_usize(o: Option<usize>) -> Option<int> {
    match o {
        Some(v) => Some(v as int),
        None => None,
    }
}

pub open spec fn named_index(ps: Seq<ProfileView>, name: Option<Seq<char>>) -> Option<int> {
    match name {
        Some(n) => first_named(ps, n),
        None => None,
    }
}

/// One tick of the poll, given the powermode and power source just read
/// and the desktop plan, if any.  A change of powermode made outside the
/// window reloads the EC table, so the profile bound to the new mode is
/// re-applied; plugging or unplugging the charger applies the profile bound
/// to the new source; a new desktop plan applies the profile that follows
/// it.
pub open spec fn poll_spec(st: PollView, c: ConfigView, mode: i32, on_battery: bool, plan_now: Option<Seq<char>>)
    -> (PollView, (Option<int>, Option<int>, Option<int>, bool, bool))
{
    let mode_changed = mode != st.last_mode;
    let mode_profile = if mode_changed { named_index(c.profiles, bound_name(c.bindings, mode)) } else { None };
    let batt_changed = st.last_batt != Some(on_battery);
    let want = if on_battery { c.on_battery_profile } else { c.on_ac_profile };
    let source_profile = if batt_changed { named_index(c.profiles, want) } else { None };
    let plan_changed = plan_now is Some && plan_now != st.last_plan;
    let plan_profile = if plan_changed { following_plan(c.profiles, plan_now.unwrap()) } else { None };
    let tick = (st.tick + 1) as u32;
    let next = PollView {
        last_mode: mode,
        last_batt: Some(on_battery),
        last_plan: if plan_changed { plan_now } else { st.last_plan },
        tick,
    };
    (next, (mode_profile, source_profile, plan_profile,
        mode_changed || batt_changed || plan_profile is Some, tick % 8 == 0))
}

fn bound_profile(c: &Config, mode: i32) -> (r: Option<usize>)
    ensures
        opt_usize(r) == named_index(c@.profiles, bound_name(c@.bindings, mode)),
{
    let n = c.bindings.len();
    let mut i: usize = 0;
    let ghost bv = binding_views(c.bindings@);
    assert(bv.skip(0) =~= bv);
    while i < n
        invariant
            n == c.bindings@.len(),
            i <= n,
            bv == binding_views(c.bindings@),
            bound_name(bv, mode) == bound_name(bv.skip(i as int), mode),
        decreases n - i,
    {
        assert(bv.skip(i as int).drop_first() =~= bv.skip(i + 1));
        assert(bv.skip(i as int)[0] == (c.bindings@[i as int].0, c.bindings@[i as int].1@));
        if c.bindings[i].0 == mode {
            return profile_named(c, &c.bindings[i].1);
        }
        i = i + 1;
    }
    None
}

fn profile_named(c: &Config, name: &String) -> (r: Option<usize>)
    ensures
        opt_usize(r) == first_named(c@.profiles, name@),
{
    let n = c.profiles.len();
    let mut i: usize = 0;
    let ghost pv = profile_views(c.profiles@);
    assert(pv.skip(0) =~= pv);
    while i < n
        invariant
            n == c.profiles@.len(),
            i <= n,
            pv == profile_views(c.profiles@),
            first_named(pv, name@) == (match first_named(pv.skip(i as int), name@) {
                Some(k) => Some(k + i),
                None => None::<int>,
            }),
        decreases n - i,
    {
        assert(pv.skip(i as int).drop_first() =~= pv.skip(i + 1));
        assert(pv.skip(i as int)[0] == c.profiles@[i as int]@);
        if c.profiles[i].name == *name {
            return Some(i);
        }
        i = i + 1;
    }
    None
}

fn profile_following(c: &Config, plan: &String) -> (r: Option<usize>)
    ensures
        opt_usize(r) == following_plan(c@.profiles, plan@),
{
    let n = c.profiles.len();
    let mut i: usize = 0;
    let ghost pv = profile_views(c.profiles@);
    assert(pv.skip(0) =~= pv);
    while i < n
        invariant
            n == c.profiles@.len(),
            i <= n,
            pv == profile_views(c.profiles@),
            following_plan(pv, plan@) == (match following_plan(pv.skip(i as int), plan@) {
                Some(k) => Some(k + i),
                None => None::<int>,
            }),
        decreases n - i,
    {
        assert(pv.skip(i as int).drop_first() =~= pv.skip(i + 1));
        assert(pv.skip(i as int)[0] == c.profiles@[i as int]@);
        let hit = match &c.profiles[i].power_plan {
            Some(p) => *p == *plan,
            None => false,
        };
        if hit {
            return Some(i);
        }
        i = i + 1;
    }
    None
}

impl Poll {
    /// Before the first tick.  The remembered mode and source are
    /// sentinels, so the first tick treats the current ones as changes and
    /// a profile bound to the mode already active still fires.
    pub fn new() -> (p: Poll)
        ensures
            p@ == (PollView { last_mode: i32::MIN, last_batt: None, last_plan: None, tick: 0 }),
    {
        Poll { last_mode: i32::MIN, last_batt: None, last_plan: None, tick: 0 }
    }

    pub fn tick(&mut self, c: &Config, mode: i32, on_battery: bool, plan_now: Option<String>) -> (t: Tick)
        requires
            old(self).tick < u32::MAX,
        ensures
            ({
                let (next, (mp, sp, pp, clear, refresh)) = poll_spec(old(self)@, c@, mode, on_battery, opt_string(plan_now));
                &&& final(self)@ == next
                &&& opt_usize(t.mode_profile) == mp
                &&& opt_usize(t.source_profile) == sp
                &&& opt_usize(t.plan_profile) == pp
                &&& t.clear_dirty == clear
                &&& t.refresh_extras == refresh
            }),
    {
        let mut clear = false;
        let mut mode_profile = None;
        if mode != self.last_mode {
            self.last_mode = mode;
            mode_profile = bound_profile(c, mode);
            clear = true;
        }
        let mut source_profile = None;
        if self.last_batt != Some(on_battery) {
            self.last_batt = Some(on_battery);
            let want = if on_battery { &c.on_battery_profile } else { &c.on_ac_profile };
            source_profile = match want {
                Some(n) => profile_named(c, n),
                None => None,
            };
            clear = true;
        }
        let mut plan_profile = None;
        let changed = match &plan_now {
            Some(p) => match &self.last_plan {
                Some(l) => !(*p == *l),
                None => true,
            },
            None => false,
        };
        if changed {
            match &plan_now {
                Some(p) => {
                    plan_profile = profile_following(c, p);
                },
                None => {},
            }
            if plan_profile.is_some() {
                clear = true;
            }
            self.last_plan = plan_now;
        }
        self.tick = self.tick + 1;
        Tick {
            mode_profile,
            source_profile,
            plan_profile,
            clear_dirty: clear,
            refresh_extras: self.tick % 8 == 0,
        }
    }
}

/// The first tick always treats the powermode and power source as changed,
/// so profiles bound to the state the machine starts in are applied (for
/// every mode but the sentinel value itself).
pub proof fn lemma_first_tick_applies_bindings(c: ConfigView, mode: i32, on_battery: bool, plan_now: Option<Seq<char>>)
    requires
        mode != i32::MIN,
    ensures
        ({
            let (_, (mp, sp, _, clear, _)) = poll_spec(
                PollView { last_mode: i32::MIN, last_batt: None, last_plan: None, tick: 0 }, c, mode, on_battery, plan_now);
            &&& mp == named_index(c.profiles, bound_name(c.bindings, mode))
            &&& sp == named_index(c.profiles, if on_battery { c.on_battery_profile } else { c.on_ac_profile })
            &&& clear
        }),
{
}

/// A tick with nothing changed applies nothing.
pub proof fn lemma_quiet_tick(st: PollView, c: ConfigView)
    requires
        st.last_batt is Some,
        st.tick < u32::MAX,
    ensures
        ({
            let (_, (mp, sp, pp, clear, _)) = poll_spec(st, c, st.last_mode, st.last_batt.unwrap(), st.last_plan);
            mp is None && sp is None && pp is None && !clear
        }),
{
}

/// The label of a profile in the window's list: its name, the mode it is
/// bound to, and the power source or desktop plan it follows.
pub open spec fn label_spec(c: ConfigView, p: ProfileView) -> Seq<char> {
    let bound = match first_binding_of(c.bindings, p.name) {
        Some(m) => "  ["@ + mode_name_spec(m) + "]"@,
        None => Seq::empty(),
    };
    let src = if c.on_battery_profile == Some(p.name) {
        "  [batt]"@
    } else if c.on_ac_profile == Some(p.name) {
        "  [AC]"@
    } else {
        match p.power_plan {
            Some(pl) => "  ["@ + pl + "]"@,
            None => Seq::empty(),
        }
    };
    p.name + bound + src
}

/// The mode of the first binding of profile `name`.
pub open spec fn first_binding_of(bs: Seq<(i32, Seq<char>)>, name: Seq<char>) -> Option<i32>
    decreases bs.len(),
{
    if bs.len() == 0 {
        None
    } else if bs[0].1 == name {
        Some(bs[0].0)
    } else {
        first_binding_of(bs.drop_first(), name)
    }
}

fn binding_of(c: &Config, name: &String) -> (r: Option<i32>)
    ensures
        r == first_binding_of(c@.bindings, name@),
{
    let n = c.bindings.len();
    let mut i: usize = 0;
    let ghost bv = binding_views(c.bindings@);
    assert(bv.skip(0) =~= bv);
    while i < n
        invariant
            n == c.bindings@.len(),
            i <= n,
            bv == binding_views(c.bindings@),
            first_binding_of(bv, name@) == first_binding_of(bv.skip(i as int), name@),
        decreases n - i,
    {
        assert(bv.skip(i as int).drop_first() =~= bv.skip(i + 1));
        assert(bv.skip(i as int)[0] == (c.bindings@[i as int].0, c.bindings@[i as int].1@));
        if c.bindings[i].1 == *name {
            return Some(c.bindings[i].0);
        }
        i = i + 1;
    }
    None
}

fn opt_eq(o: &Option<String>, s: &String) -> (r: bool)
    ensures
        r == (opt_string(*o) == Some(s@)),
{
    match o {
        Some(x) => *x == *s,
        None => false,
    }
}

/// The labels of all profiles, in order.
pub fn labels(c: &Config) -> (r: Vec<String>)
    ensures
        r@.len() == c@.profiles.len(),
        forall|i: int| 0 <= i < r@.len() ==> (#[trigger] r@[i])@ == label_spec(c@, c@.profiles[i]),
{
    let mut out: Vec<String> = Vec::new();
    let mut i: usize = 0;
    while i < c.profiles.len()
        invariant
            i <= c.profiles@.len(),
            out@.len() == i,
            forall|k: int| 0 <= k < i ==> (#[trigger] out@[k])@ == label_spec(c@, c@.profiles[k]),
        decreases c.profiles@.len() - i,
    {
        let p = &c.profiles[i];
        assert(c@.profiles[i as int] == p@);
        let mut m = p.name.clone();
        match binding_of(c, &p.name) {
            Some(md) => {
                m.append("  [");
                m.append(mode_name(md));
                m.append("]");
            },
            None => {},
        }
        if opt_eq(&c.on_battery_profile, &p.name) {
            m.append("  [batt]");
        } else if opt_eq(&c.on_ac_profile, &p.name) {
            m.append("  [AC]");
        } else {
            match &p.power_plan {
                Some(pl) => {
                    m.append("  [");
                    m.append(pl.as_str());
                    m.append("]");
                },
                None => {},
            }
        }
        assert(m@ =~= label_spec(c@, c@.profiles[i as int]));
        out.push(m);
        i = i + 1;
    }
    out
}


/// The poll remembers every desktop plan it reads, whether or not a profile
/// follows it.
pub proof fn lemma_poll_remembers_plan(st: PollView, c: ConfigView, mode: i32, on_battery: bool, p: Seq<char>)
    ensures
        poll_spec(st, c, mode, on_battery, Some(p)).0.last_plan == Some(p),
        poll_spec(st, c, mode, on_battery, None).0.last_plan == st.last_plan,
{
}

/// Switching to a plan and then to a different one always applies the
/// profile that follows the second plan, from any state: a plan that no
/// profile follows still counts as the plan left behind.
pub proof fn lemma_plan_switch_applies(
    st: PollView,
    c: ConfigView,
    mode1: i32,
    b1: bool,
    p1: Seq<char>,
    mode2: i32,
    b2: bool,
    p2: Seq<char>,
)
    requires
        p1 != p2,
    ensures
        ({
            let s1 = poll_spec(st, c, mode1, b1, Some(p1)).0;
            let r = poll_spec(s1, c, mode2, b2, Some(p2)).1;
            &&& r.2 == following_plan(c.profiles, p2)
            &&& following_plan(c.profiles, p2) is Some ==> r.3
        }),
{
}

/// Applying a profile for a power source does what applying it from the
/// window does, without the GPU limits and the full-speed pin; a plan
/// change adds the pin back.  In particular both apply the profile's
/// firmware extras, right after the CPU ceiling and before the curve.
pub proof fn lemma_source_and_plan_match_window(p: ProfileView)
    ensures
        (p.gpu_ctgp <= 0 && p.gpu_ppab <= 0 && !p.fan_fullspeed) ==> source_spec(p) == apply_spec(p),
        (p.gpu_ctgp <= 0 && p.gpu_ppab <= 0) ==> plan_spec(p) == apply_spec(p),
        source_spec(p).subrange(
            mode_prefix(p).len() as int + 3,
            mode_prefix(p).len() as int + 3 + extras_spec(p).len() as int,
        ) == extras_spec(p),
        source_spec(p).len() == mode_prefix(p).len() + 3 + extras_spec(p).len() + 1,
        source_spec(p)[mode_prefix(p).len() as int + 2] == ActionView::SetMaxPerf(p.max_perf_pct),
        source_spec(p).last() == ActionView::WriteCurve(p.curve),
        plan_spec(p).subrange(0, source_spec(p).len() as int) == source_spec(p),
{
    if p.gpu_ctgp <= 0 && p.gpu_ppab <= 0 {
        assert(apply_spec(p) =~= source_spec(p) + (if p.fan_fullspeed { seq![ActionView::FanFullspeed] } else { Seq::empty() }));
    }
    let core = mode_prefix(p) + seq![
        ActionView::SetPower(p.pl1, p.pl2, p.tau),
        ActionView::SetUndervolt(p.undervolt_mv),
        ActionView::SetMaxPerf(p.max_perf_pct),
    ];
    assert(source_spec(p) =~= core + extras_spec(p) + seq![ActionView::WriteCurve(p.curve)]);
    assert((core + extras_spec(p) + seq![ActionView::WriteCurve(p.curve)]).subrange(
        core.len() as int, core.len() as int + extras_spec(p).len() as int) =~= extras_spec(p));
    assert(plan_spec(p).subrange(0, source_spec(p).len() as int) =~= source_spec(p));
}

/// The poll remembers the powermode and power source it read: on the next
/// tick a different mode applies the profile bound to it and a different
/// source the profile bound to that source, while an unchanged one applies
/// nothing; any such change asks for the window's edits to be dropped.
pub proof fn lemma_tick_sees_mode_and_source_changes(
    st: PollView,
    c: ConfigView,
    mode1: i32,
    b1: bool,
    plan1: Option<Seq<char>>,
    mode2: i32,
    b2: bool,
    plan2: Option<Seq<char>>,
)
    ensures
        ({
            let s1 = poll_spec(st, c, mode1, b1, plan1).0;
            let r = poll_spec(s1, c, mode2, b2, plan2).1;
            &&& mode2 != mode1 ==> r.0 == named_index(c.profiles, bound_name(c.bindings, mode2))
            &&& mode2 == mode1 ==> r.0 is None
            &&& b2 != b1 ==> r.1 == named_index(c.profiles, if b2 { c.on_battery_profile } else { c.on_ac_profile })
            &&& b2 == b1 ==> r.1 is None
            &&& (mode2 != mode1 || b2 != b1) ==> r.3
        }),
{
}

} // verus!
