//! Profiles: a fan curve, power limits and firmware settings applied
//! together, and the configuration that binds them to power modes, power
//! sources and desktop power plans.

use vstd::prelude::*;
use crate::text::str_eq;

verus! {

/// A named set of settings.
///
/// Fields that a profile may decline to have an opinion about: a
/// temperature limit, boost or offset of 0, a backlight level of -1, a
/// refresh rate of 0, GPU limits both 0 and a powermode of 0 leave the
/// machine as it is.
pub struct Profile {
    pub name: String,
    /// (trip temperature C, fan rpm) per point, lowest first
    pub curve: Vec<(i32, i32)>,
    pub pl1: i32,
    pub pl2: i32,
    pub tau: i32,
    /// EC power mode to switch to when this profile is applied.
    /// 1 quiet, 2 balanced, 3 performance, 224 extreme, 255 custom.
    /// 0 means leave the current mode alone.
    pub powermode: i32,
    pub undervolt_mv: i32,
    pub max_perf_pct: i32,
    pub fan_fullspeed: bool,
    pub gpu_ctgp: i32,
    pub gpu_ppab: i32,
    /// The power-profiles-daemon plan this profile follows, if any.
    pub power_plan: Option<String>,
    pub cpu_temp_limit: i32,
    pub gpu_temp_limit: i32,
    pub gpu_boost: i32,
    pub gpu_target_offset: i32,
    pub kbd_backlight: i32,
    pub refresh_hz: i32,
    pub builtin: bool,
}

/// The saved configuration.
pub struct Config {
    pub profiles: Vec<Profile>,
    /// EC power mode -> profile name.  When the mode changes, apply that
    /// profile.
    pub bindings: Vec<(i32, String)>,
    pub apply_on_start: Option<String>,
    /// Whether the full state is replayed at boot.
    pub persist: bool,
    pub on_battery_profile: Option<String>,
    pub on_ac_profile: Option<String>,
}

pub struct ProfileView {
    pub name: Seq<char>,
    pub curve: Seq<(i32, i32)>,
    pub pl1: i32,
    pub pl2: i32,
    pub tau: i32,
    pub powermode: i32,
    pub undervolt_mv: i32,
    pub max_perf_pct: i32,
    pub fan_fullspeed: bool,
    pub gpu_ctgp: i32,
    pub gpu_ppab: i32,
    pub power_plan: Option<Seq<char>>,
    pub cpu_temp_limit: i32,
    pub gpu_temp_limit: i32,
    pub gpu_boost: i32,
    pub gpu_target_offset: i32,
    pub kbd_backlight: i32,
    pub refresh_hz: i32,
    pub builtin: bool,
}

pub struct ConfigView {
    pub profiles: Seq<ProfileView>,
    pub bindings: Seq<(i32, Seq<char>)>,
    pub apply_on_start: Option<Seq<char>>,
    pub persist: bool,
    pub on_battery_profile: Option<Seq<char>>,
    pub on_ac_profile: Option<Seq<char>>,
}

pub open spec fn opt_string(o: Option<String>) -> Option<Seq<char>> {
    match o {
        Some(s) => Some(s@),
        None => None,
    }
}

impl View for Profile {
    type V = ProfileView;

    open spec fn view(&self) -> ProfileView {
        ProfileView {
            name: self.name@,
            curve: self.curve@,
            pl1: self.pl1,
            pl2: self.pl2,
            tau: self.tau,
            powermode: self.powermode,
            undervolt_mv: self.undervolt_mv,
            max_perf_pct: self.max_perf_pct,
            fan_fullspeed: self.fan_fullspeed,
            gpu_ctgp: self.gpu_ctgp,
            gpu_ppab: self.gpu_ppab,
            power_plan: opt_string(self.power_plan),
            cpu_temp_limit: self.cpu_temp_limit,
            gpu_temp_limit: self.gpu_temp_limit,
            gpu_boost: self.gpu_boost,
            gpu_target_offset: self.gpu_target_offset,
            kbd_backlight: self.kbd_backlight,
            refresh_hz: self.refresh_hz,
            builtin: self.builtin,
        }
    }
}

pub open spec fn profile_views(ps: Seq<Profile>) -> Seq<ProfileView> {
    ps.map_values(|p: Profile| p@)
}

pub open spec fn binding_views(bs: Seq<(i32, String)>) -> Seq<(i32, Seq<char>)> {
    bs.map_values(|b: (i32, String)| (b.0, b.1@))
}

impl View for Config {
    type V = ConfigView;

    open spec fn view(&self) -> ConfigView {
        ConfigView {
            profiles: profile_views(self.profiles@),
            bindings: binding_views(self.bindings@),
            apply_on_start: opt_string(self.apply_on_start),
            persist: self.persist,
            on_battery_profile: opt_string(self.on_battery_profile),
            on_ac_profile: opt_string(self.on_ac_profile),
        }
    }
}

pub fn copy_curve(c: &Vec<(i32, i32)>) -> (r: Vec<(i32, i32)>)
    ensures
        r@ == c@,
{
    let mut r: Vec<(i32, i32)> = Vec::new();
    let mut i: usize = 0;
    while i < c.len()
        invariant
            i <= c@.len(),
            r@ == c@.take(i as int),
        decreases c@.len() - i,
    {
        r.push(c[i]);
        i = i + 1;
        assert(r@ =~= c@.take(i as int));
    }
    assert(c@.take(c@.len() as int) =~= c@);
    r
}

pub fn copy_opt_string(o: &Option<String>) -> (r: Option<String>)
    ensures
        opt_string(r) == opt_string(*o),
{
    match o {
        Some(s) => Some(s.clone()),
        None => None,
    }
}

impl Profile {
    /// A copy with the same contents.
    pub fn copy(&self) -> (r: Profile)
        ensures
            r@ == self@,
    {
        Profile {
            name: self.name.clone(),
            curve: copy_curve(&self.curve),
            pl1: self.pl1,
            pl2: self.pl2,
            tau: self.tau,
            powermode: self.powermode,
            undervolt_mv: self.undervolt_mv,
            max_perf_pct: self.max_perf_pct,
            fan_fullspeed: self.fan_fullspeed,
            gpu_ctgp: self.gpu_ctgp,
            gpu_ppab: self.gpu_ppab,
            power_plan: copy_opt_string(&self.power_plan),
            cpu_temp_limit: self.cpu_temp_limit,
            gpu_temp_limit: self.gpu_temp_limit,
            gpu_boost: self.gpu_boost,
            gpu_target_offset: self.gpu_target_offset,
            kbd_backlight: self.kbd_backlight,
            refresh_hz: self.refresh_hz,
            builtin: self.builtin,
        }
    }
}

/// A built-in profile: everything it does not set is left as the machine
/// has it, the undervolt offset is cleared and the CPU may use its full
/// performance range.
pub open spec fn builtin_view(name: Seq<char>, curve: Seq<(i32, i32)>, pl1: i32, pl2: i32, tau: i32, powermode: i32) -> ProfileView {
    ProfileView {
        name,
        curve,
        pl1,
        pl2,
        tau,
        powermode,
        undervolt_mv: 0,
        max_perf_pct: 100,
        fan_fullspeed: false,
        gpu_ctgp: 0,
        gpu_ppab: 0,
        power_plan: None,
        cpu_temp_limit: 0,
        gpu_temp_limit: 0,
        gpu_boost: 0,
        gpu_target_offset: 0,
        kbd_backlight: -1i32,
        refresh_hz: 0,
        builtin: true,
    }
}

pub open spec fn silent_curve() -> Seq<(i32, i32)> {
    seq![(55i32, 1000i32), (62, 1300), (68, 1600), (72, 2000), (76, 2400), (80, 2900), (84, 3400), (87, 3900), (90, 4300), (94, 4300)]
}

pub open spec fn balanced_curve() -> Seq<(i32, i32)> {
    seq![(50i32, 1200i32), (55, 1500), (60, 1900), (65, 2300), (70, 2700), (75, 3100), (80, 3500), (85, 3900), (88, 4300), (92, 4300)]
}

pub open spec fn gaming_curve() -> Seq<(i32, i32)> {
    seq![(45i32, 1500i32), (50, 2000), (55, 2500), (60, 3000), (65, 3400), (70, 3800), (75, 4100), (80, 4300), (85, 4300), (90, 4300)]
}

pub open spec fn max_cooling_curve() -> Seq<(i32, i32)> {
    seq![(40i32, 2000i32), (45, 2600), (50, 3200), (55, 3700), (60, 4100), (65, 4300), (70, 4300), (75, 4300), (80, 4300), (85, 4300)]
}

/// The four profiles that ship with the program.
pub open spec fn builtins_spec() -> Seq<ProfileView> {
    seq![
        builtin_view("Silent"@, silent_curve(), 30, 55, 8, 1),
        builtin_view("Balanced"@, balanced_curve(), 40, 75, 8, 2),
        builtin_view("Gaming"@, gaming_curve(), 45, 90, 8, 255),
        builtin_view("Max cooling"@, max_cooling_curve(), 45, 90, 8, 255),
    ]
}

fn make_builtin(name: &str, curve: Vec<(i32, i32)>, pl1: i32, pl2: i32, tau: i32, powermode: i32) -> (p: Profile)
    ensures
        p@ == builtin_view(name@, curve@, pl1, pl2, tau, powermode),
{
    Profile {
        name: String::from_str(name),
        curve,
        pl1,
        pl2,
        tau,
        powermode,
        undervolt_mv: 0,
        max_perf_pct: 100,
        fan_fullspeed: false,
        gpu_ctgp: 0,
        gpu_ppab: 0,
        power_plan: None,
        cpu_temp_limit: 0,
        gpu_temp_limit: 0,
        gpu_boost: 0,
        gpu_target_offset: 0,
        kbd_backlight: -1,
        refresh_hz: 0,
        builtin: true,
    }
}

/// The built-in profiles, from quietest to coolest.
pub fn builtins() -> (r: Vec<Profile>)
    ensures
        profile_views(r@) == builtins_spec(),
{
    let silent = vec![(55, 1000), (62, 1300), (68, 1600), (72, 2000), (76, 2400),
                      (80, 2900), (84, 3400), (87, 3900), (90, 4300), (94, 4300)];
    assert(silent@ =~= silent_curve());
    let balanced = vec![(50, 1200), (55, 1500), (60, 1900), (65, 2300), (70, 2700),
                        (75, 3100), (80, 3500), (85, 3900), (88, 4300), (92, 4300)];
    assert(balanced@ =~= balanced_curve());
    let gaming = vec![(45, 1500), (50, 2000), (55, 2500), (60, 3000), (65, 3400),
                      (70, 3800), (75, 4100), (80, 4300), (85, 4300), (90, 4300)];
    assert(gaming@ =~= gaming_curve());
    let max_cooling = vec![(40, 2000), (45, 2600), (50, 3200), (55, 3700), (60, 4100),
                           (65, 4300), (70, 4300), (75, 4300), (80, 4300), (85, 4300)];
    assert(max_cooling@ =~= max_cooling_curve());
    let mut r: Vec<Profile> = Vec::new();
    r.push(make_builtin("Silent", silent, 30, 55, 8, 1));
    r.push(make_builtin("Balanced", balanced, 40, 75, 8, 2));
    r.push(make_builtin("Gaming", gaming, 45, 90, 8, 255));
    r.push(make_builtin("Max cooling", max_cooling, 45, 90, 8, 255));
    assert(profile_views(r@) =~= builtins_spec());
    r
}

/// The display name of an EC power mode.
pub open spec fn mode_name_spec(mode: i32) -> Seq<char> {
    if mode == 1 {
        "Quiet"@
    } else if mode == 2 {
        "Balanced"@
    } else if mode == 3 {
        "Performance"@
    } else if mode == 224 {
        "Extreme"@
    } else if mode == 255 {
        "Custom"@
    } else {
        "Unknown"@
    }
}

pub fn mode_name(mode: i32) -> (r: &'static str)
    ensures
        r@ == mode_name_spec(mode),
{
    match mode {
        1 => "Quiet",
        2 => "Balanced",
        3 => "Performance",
        224 => "Extreme",
        255 => "Custom",
        _ => "Unknown",
    }
}

/// The power modes a profile can be bound to, in the order the GUI offers
/// them.
pub const MODES: [i32; 5] = [1, 2, 3, 224, 255];

pub open spec fn modes_spec() -> Seq<i32> {
    seq![1i32, 2, 3, 224, 255]
}

/// The profiles of `ps` that are not built in, in order.
pub open spec fn user_profiles(ps: Seq<ProfileView>) -> Seq<ProfileView>
    decreases ps.len(),
{
    if ps.len() == 0 {
        Seq::empty()
    } else {
        let rest = user_profiles(ps.drop_last());
        if ps.last().builtin {
            rest
        } else {
            rest.push(ps.last())
        }
    }
}

/// The empty configuration, for a missing or unreadable file.
pub open spec fn default_config() -> ConfigView {
    ConfigView {
        profiles: Seq::empty(),
        bindings: Seq::empty(),
        apply_on_start: None,
        persist: false,
        on_battery_profile: None,
        on_ac_profile: None,
    }
}

/// What loading gives for what was parsed from the file: built-ins are
/// code, not data, so they are refreshed on every load and an old file never
/// pins a stale curve, while user profiles are left untouched.
pub open spec fn load_spec(parsed: Option<ConfigView>) -> ConfigView {
    let c = match parsed {
        Some(c) => c,
        None => default_config(),
    };
    ConfigView { profiles: builtins_spec() + user_profiles(c.profiles), ..c }
}

/// What saving writes: the configuration without its built-in profiles.
pub open spec fn saved_spec(c: ConfigView) -> ConfigView {
    ConfigView { profiles: user_profiles(c.profiles), ..c }
}

/// The user profiles of `ps`, copied.
fn copy_user_profiles(ps: &Vec<Profile>) -> (r: Vec<Profile>)
    ensures
        profile_views(r@) == user_profiles(profile_views(ps@)),
{
    let mut r: Vec<Profile> = Vec::new();
    let mut i: usize = 0;
    assert(profile_views(ps@).take(0) =~= Seq::<ProfileView>::empty());
    assert(profile_views(r@) =~= Seq::<ProfileView>::empty());
    while i < ps.len()
        invariant
            i <= ps@.len(),
            profile_views(r@) == user_profiles(profile_views(ps@).take(i as int)),
        decreases ps@.len() - i,
    {
        let ghost pv = profile_views(ps@);
        assert(pv.take(i + 1).drop_last() =~= pv.take(i as int));
        assert(pv.take(i + 1).last() == ps@[i as int]@);
        if !ps[i].builtin {
            let ghost before = profile_views(r@);
            r.push(ps[i].copy());
            assert(profile_views(r@) =~= before.push(ps@[i as int]@));
        }
        i = i + 1;
    }
    assert(profile_views(ps@).take(ps@.len() as int) =~= profile_views(ps@));
    r
}

fn copy_bindings(bs: &Vec<(i32, String)>) -> (r: Vec<(i32, String)>)
    ensures
        binding_views(r@) == binding_views(bs@),
{
    let mut r: Vec<(i32, String)> = Vec::new();
    let mut i: usize = 0;
    while i < bs.len()
        invariant
            i <= bs@.len(),
            binding_views(r@) == binding_views(bs@).take(i as int),
        decreases bs@.len() - i,
    {
        let ghost before = binding_views(r@);
        r.push((bs[i].0, bs[i].1.clone()));
        assert(binding_views(r@) =~= before.push((bs@[i as int].0, bs@[i as int].1@)));
        i = i + 1;
        assert(binding_views(r@) =~= binding_views(bs@).take(i as int));
    }
    assert(binding_views(bs@).take(bs@.len() as int) =~= binding_views(bs@));
    r
}

/// The configuration as read from the file (`None` when it is missing or
/// does not parse), with the current built-in profiles in front.
pub fn load(parsed: Option<Config>) -> (c: Config)
    ensures
        c@ == load_spec(match parsed {
            Some(p) => Some(p@),
            None => None,
        }),
{
    match parsed {
        None => {
            let c = Config {
                profiles: builtins(),
                bindings: Vec::new(),
                apply_on_start: None,
                persist: false,
                on_battery_profile: None,
                on_ac_profile: None,
            };
            assert(user_profiles(Seq::<ProfileView>::empty()) =~= Seq::<ProfileView>::empty());
            assert(profile_views(c.profiles@) =~= builtins_spec() + Seq::<ProfileView>::empty());
            assert(binding_views(c.bindings@) =~= Seq::<(i32, Seq<char>)>::empty());
            c
        },
        Some(p) => {
            let mut all = builtins();
            let mut users = copy_user_profiles(&p.profiles);
            let ghost b = profile_views(all@);
            let ghost u = profile_views(users@);
            all.append(&mut users);
            assert(profile_views(all@) =~= b + u);
            Config {
                profiles: all,
                bindings: p.bindings,
                apply_on_start: p.apply_on_start,
                persist: p.persist,
                on_battery_profile: p.on_battery_profile,
                on_ac_profile: p.on_ac_profile,
            }
        },
    }
}

/// What is written to the file: the configuration without its built-ins.
pub fn to_saved(cfg: &Config) -> (c: Config)
    ensures
        c@ == saved_spec(cfg@),
{
    Config {
        profiles: copy_user_profiles(&cfg.profiles),
        bindings: copy_bindings(&cfg.bindings),
        apply_on_start: copy_opt_string(&cfg.apply_on_start),
        persist: cfg.persist,
        on_battery_profile: copy_opt_string(&cfg.on_battery_profile),
        on_ac_profile: copy_opt_string(&cfg.on_ac_profile),
    }
}

proof fn lemma_user_profiles_idempotent(ps: Seq<ProfileView>)
    ensures
        user_profiles(user_profiles(ps)) == user_profiles(ps),
    decreases ps.len(),
{
    if ps.len() > 0 {
        lemma_user_profiles_idempotent(ps.drop_last());
        let rest = user_profiles(ps.drop_last());
        if !ps.last().builtin {
            let r2 = rest.push(ps.last());
            assert(r2.drop_last() =~= rest);
            assert(r2.last() == ps.last());
        }
    }
}

proof fn lemma_user_profiles_all_builtin(ps: Seq<ProfileView>)
    requires
        forall|i: int| 0 <= i < ps.len() ==> (#[trigger] ps[i]).builtin,
    ensures
        user_profiles(ps) =~= Seq::<ProfileView>::empty(),
    decreases ps.len(),
{
    if ps.len() > 0 {
        assert(ps.last().builtin);
        lemma_user_profiles_all_builtin(ps.drop_last());
    }
}

proof fn lemma_user_profiles_builtins()
    ensures
        user_profiles(builtins_spec()) =~= Seq::<ProfileView>::empty(),
{
    lemma_user_profiles_all_builtin(builtins_spec());
}

proof fn lemma_user_profiles_append(a: Seq<ProfileView>, b: Seq<ProfileView>)
    ensures
        user_profiles(a + b) == user_profiles(a) + user_profiles(b),
    decreases b.len(),
{
    if b.len() == 0 {
        assert(a + b =~= a);
        assert(user_profiles(a) + user_profiles(b) =~= user_profiles(a));
    } else {
        lemma_user_profiles_append(a, b.drop_last());
        assert((a + b).drop_last() =~= a + b.drop_last());
        assert((a + b).last() == b.last());
        if !b.last().builtin {
            assert(user_profiles(a) + user_profiles(b.drop_last()).push(b.last())
                =~= (user_profiles(a) + user_profiles(b.drop_last())).push(b.last()));
        }
    }
}

/// Saving then loading gives back the configuration that was loaded:
/// nothing a user made is lost and no built-in is doubled.
pub proof fn lemma_save_load_roundtrip(c: ConfigView)
    ensures
        load_spec(Some(saved_spec(load_spec(Some(c))))) == load_spec(Some(c)),
{
    lemma_user_profiles_builtins();
    lemma_user_profiles_append(builtins_spec(), user_profiles(c.profiles));
    lemma_user_profiles_idempotent(c.profiles);
    assert(Seq::<ProfileView>::empty() + user_profiles(user_profiles(c.profiles)) =~= user_profiles(c.profiles));
}

/// A loaded configuration always starts with exactly the built-in profiles,
/// and every other profile in it is one the user made.
pub proof fn lemma_load_builtins_first(parsed: Option<ConfigView>)
    ensures
        load_spec(parsed).profiles.take(4) == builtins_spec(),
        forall|i: int| 4 <= i < load_spec(parsed).profiles.len() ==> !(#[trigger] load_spec(parsed).profiles[i]).builtin,
{
    let c = match parsed {
        Some(c) => c,
        None => default_config(),
    };
    let ps = load_spec(parsed).profiles;
    assert(ps.take(4) =~= builtins_spec());
    lemma_user_profiles_not_builtin(c.profiles);
    assert forall|i: int| 4 <= i < ps.len() implies !(#[trigger] ps[i]).builtin by {
        assert(ps[i] == user_profiles(c.profiles)[i - 4]);
    }
}

proof fn lemma_user_profiles_not_builtin(ps: Seq<ProfileView>)
    ensures
        forall|i: int| 0 <= i < user_profiles(ps).len() ==> !(#[trigger] user_profiles(ps)[i]).builtin,
    decreases ps.len(),
{
    if ps.len() > 0 {
        lemma_user_profiles_not_builtin(ps.drop_last());
    }
}


/// The bindings whose profile is not `name`, in order.
pub open spec fn without_name(bs: Seq<(i32, Seq<char>)>, name: Seq<char>) -> Seq<(i32, Seq<char>)>
    decreases bs.len(),
{
    if bs.len() == 0 {
        Seq::empty()
    } else {
        let rest = without_name(bs.drop_last(), name);
        if bs.last().1 == name {
            rest
        } else {
            rest.push(bs.last())
        }
    }
}

/// The bindings whose mode is not `m`, in order.
pub open spec fn without_mode(bs: Seq<(i32, Seq<char>)>, m: i32) -> Seq<(i32, Seq<char>)>
    decreases bs.len(),
{
    if bs.len() == 0 {
        Seq::empty()
    } else {
        let rest = without_mode(bs.drop_last(), m);
        if bs.last().0 == m {
            rest
        } else {
            rest.push(bs.last())
        }
    }
}

proof fn lemma_without_name(bs: Seq<(i32, Seq<char>)>, name: Seq<char>)
    ensures
        forall|i: int| #![trigger without_name(bs, name)[i]] 0 <= i < without_name(bs, name).len() ==> without_name(bs, name)[i].1 != name
            && bs.contains(without_name(bs, name)[i]),
        forall|i: int, j: int| 0 <= i < j < without_name(bs, name).len() ==> exists|a: int, b: int|
            0 <= a < b < bs.len() && bs[a] == #[trigger] without_name(bs, name)[i] && bs[b] == #[trigger] without_name(bs, name)[j],
    decreases bs.len(),
{
    if bs.len() > 0 {
        let t = bs.drop_last();
        lemma_without_name(t, name);
        let w = without_name(bs, name);
        let wt = without_name(t, name);
        assert forall|i: int| #![trigger w[i]] 0 <= i < w.len() implies w[i].1 != name && bs.contains(w[i]) by {
            if i < wt.len() {
                assert(w[i] == wt[i]);
                assert(t.contains(wt[i]));
                let k = choose|k: int| 0 <= k < t.len() && t[k] == wt[i];
                assert(bs[k] == t[k]);
            } else {
                assert(w[i] == bs.last());
                assert(bs[bs.len() - 1] == bs.last());
            }
        }
        assert forall|i: int, j: int| 0 <= i < j < w.len() implies exists|a: int, b: int|
            0 <= a < b < bs.len() && bs[a] == #[trigger] w[i] && bs[b] == #[trigger] w[j] by {
            if j < wt.len() {
                assert(w[i] == wt[i] && w[j] == wt[j]);
                let (a, b) = choose|a: int, b: int| 0 <= a < b < t.len() && t[a] == wt[i] && t[b] == wt[j];
                assert(bs[a] == t[a] && bs[b] == t[b]);
            } else {
                assert(w[j] == bs.last());
                assert(w[i] == wt[i]);
                assert(t.contains(wt[i]));
                let a = choose|a: int| 0 <= a < t.len() && t[a] == wt[i];
                assert(bs[a] == t[a]);
                assert(bs[bs.len() - 1] == w[j]);
            }
        }
    }
}

proof fn lemma_without_mode(bs: Seq<(i32, Seq<char>)>, m: i32)
    ensures
        forall|i: int| #![trigger without_mode(bs, m)[i]] 0 <= i < without_mode(bs, m).len() ==> without_mode(bs, m)[i].0 != m
            && bs.contains(without_mode(bs, m)[i]),
        forall|i: int, j: int| 0 <= i < j < without_mode(bs, m).len() ==> exists|a: int, b: int|
            0 <= a < b < bs.len() && bs[a] == #[trigger] without_mode(bs, m)[i] && bs[b] == #[trigger] without_mode(bs, m)[j],
    decreases bs.len(),
{
    if bs.len() > 0 {
        let t = bs.drop_last();
        lemma_without_mode(t, m);
        let w = without_mode(bs, m);
        let wt = without_mode(t, m);
        assert forall|i: int| #![trigger w[i]] 0 <= i < w.len() implies w[i].0 != m && bs.contains(w[i]) by {
            if i < wt.len() {
                assert(w[i] == wt[i]);
                assert(t.contains(wt[i]));
                let k = choose|k: int| 0 <= k < t.len() && t[k] == wt[i];
                assert(bs[k] == t[k]);
            } else {
                assert(w[i] == bs.last());
                assert(bs[bs.len() - 1] == bs.last());
            }
        }
        assert forall|i: int, j: int| 0 <= i < j < w.len() implies exists|a: int, b: int|
            0 <= a < b < bs.len() && bs[a] == #[trigger] w[i] && bs[b] == #[trigger] w[j] by {
            if j < wt.len() {
                assert(w[i] == wt[i] && w[j] == wt[j]);
                let (a, b) = choose|a: int, b: int| 0 <= a < b < t.len() && t[a] == wt[i] && t[b] == wt[j];
                assert(bs[a] == t[a] && bs[b] == t[b]);
            } else {
                assert(w[j] == bs.last());
                assert(w[i] == wt[i]);
                assert(t.contains(wt[i]));
                let a = choose|a: int| 0 <= a < t.len() && t[a] == wt[i];
                assert(bs[a] == t[a]);
                assert(bs[bs.len() - 1] == w[j]);
            }
        }
    }
}

/// No power mode is bound twice, and no profile is bound to two modes.
pub open spec fn bindings_wf(bs: Seq<(i32, Seq<char>)>) -> bool {
    forall|i: int, j: int| 0 <= i < j < bs.len() ==> #[trigger] bs[i].0 != #[trigger] bs[j].0 && bs[i].1 != bs[j].1
}

/// The mode chosen in the GUI's list (0 is "no binding").
pub open spec fn chosen_mode(mode_idx: i32) -> Option<i32> {
    if 0 < mode_idx <= 5 {
        Some(modes_spec()[mode_idx - 1])
    } else {
        None
    }
}

/// Binding the profile at `idx` to the mode at `mode_idx`: the profile
/// loses any earlier binding, the mode loses its earlier profile, and with a
/// mode chosen the pair is added.  Out-of-range indices change nothing.
pub open spec fn bind_profile_spec(c: ConfigView, idx: i32, mode_idx: i32) -> ConfigView {
    if !(0 <= idx < c.profiles.len()) {
        c
    } else {
        let name = c.profiles[idx as int].name;
        let b1 = without_name(c.bindings, name);
        let b2 = if mode_idx > 0 {
            match chosen_mode(mode_idx) {
                Some(m) => without_mode(b1, m).push((m, name)),
                None => b1,
            }
        } else {
            b1
        };
        ConfigView { bindings: b2, ..c }
    }
}

fn retain_other_names(bs: &Vec<(i32, String)>, name: &String) -> (r: Vec<(i32, String)>)
    ensures
        binding_views(r@) == without_name(binding_views(bs@), name@),
{
    let mut r: Vec<(i32, String)> = Vec::new();
    let mut i: usize = 0;
    assert(binding_views(bs@).take(0) =~= Seq::<(i32, Seq<char>)>::empty());
    assert(binding_views(r@) =~= Seq::<(i32, Seq<char>)>::empty());
    while i < bs.len()
        invariant
            i <= bs@.len(),
            binding_views(r@) == without_name(binding_views(bs@).take(i as int), name@),
        decreases bs@.len() - i,
    {
        let ghost bv = binding_views(bs@);
        assert(bv.take(i + 1).drop_last() =~= bv.take(i as int));
        assert(bv.take(i + 1).last() == (bs@[i as int].0, bs@[i as int].1@));
        if !(bs[i].1 == *name) {
            let ghost before = binding_views(r@);
            r.push((bs[i].0, bs[i].1.clone()));
            assert(binding_views(r@) =~= before.push((bs@[i as int].0, bs@[i as int].1@)));
        }
        i = i + 1;
    }
    assert(binding_views(bs@).take(bs@.len() as int) =~= binding_views(bs@));
    r
}

fn retain_other_modes(bs: &Vec<(i32, String)>, m: i32) -> (r: Vec<(i32, String)>)
    ensures
        binding_views(r@) == without_mode(binding_views(bs@), m),
{
    let mut r: Vec<(i32, String)> = Vec::new();
    let mut i: usize = 0;
    assert(binding_views(bs@).take(0) =~= Seq::<(i32, Seq<char>)>::empty());
    assert(binding_views(r@) =~= Seq::<(i32, Seq<char>)>::empty());
    while i < bs.len()
        invariant
            i <= bs@.len(),
            binding_views(r@) == without_mode(binding_views(bs@).take(i as int), m),
        decreases bs@.len() - i,
    {
        let ghost bv = binding_views(bs@);
        assert(bv.take(i + 1).drop_last() =~= bv.take(i as int));
        assert(bv.take(i + 1).last() == (bs@[i as int].0, bs@[i as int].1@));
        if bs[i].0 != m {
            let ghost before = binding_views(r@);
            r.push((bs[i].0, bs[i].1.clone()));
            assert(binding_views(r@) =~= before.push((bs@[i as int].0, bs@[i as int].1@)));
        }
        i = i + 1;
    }
    assert(binding_views(bs@).take(bs@.len() as int) =~= binding_views(bs@));
    r
}

/// The result of an edit the GUI reports.
#[derive(Debug, PartialEq, Eq)]
pub enum Edit {
    /// Done, to the profile of this name.
    Done(String),
    /// Refused, for this reason.
    Refused(String),
    /// The index names no profile.
    Missing,
}

impl Config {
    /// Binds the profile at `idx` to the power mode at `mode_idx` of
    /// `MODES` (counted from 1; 0 clears the profile's binding).  Returns the
    /// profile's name, or `None` when `idx` names no profile.
    pub fn bind_profile(&mut self, idx: i32, mode_idx: i32) -> (r: Option<String>)
        ensures
            final(self)@ == bind_profile_spec(old(self)@, idx, mode_idx),
            match r {
                Some(n) => 0 <= idx < old(self)@.profiles.len() && n@ == old(self)@.profiles[idx as int].name,
                None => !(0 <= idx < old(self)@.profiles.len()),
            },
    {
        if idx < 0 || idx as usize >= self.profiles.len() {
            return None;
        }
        let i = idx as usize;
        let name = self.profiles[i].name.clone();
        let b1 = retain_other_names(&self.bindings, &name);
        if mode_idx > 0 && mode_idx <= 5 {
            let m = MODES[(mode_idx - 1) as usize];
            assert(m == modes_spec()[mode_idx - 1]);
            let mut b2 = retain_other_modes(&b1, m);
            let ghost before = binding_views(b2@);
            b2.push((m, name.clone()));
            assert(binding_views(b2@) =~= before.push((m, name@)));
            self.bindings = b2;
        } else {
            self.bindings = b1;
        }
        Some(name)
    }
}

/// Binding keeps the bindings one-to-one, and afterwards the chosen mode
/// runs exactly the chosen profile.
pub proof fn lemma_bind_profile_one_to_one(c: ConfigView, idx: i32, mode_idx: i32)
    requires
        bindings_wf(c.bindings),
    ensures
        bindings_wf(bind_profile_spec(c, idx, mode_idx).bindings),
        (0 <= idx < c.profiles.len() && chosen_mode(mode_idx) is Some) ==> {
            let bs = bind_profile_spec(c, idx, mode_idx).bindings;
            let m = chosen_mode(mode_idx).unwrap();
            let name = c.profiles[idx as int].name;
            &&& bs.contains((m, name))
            &&& forall|i: int| 0 <= i < bs.len() && (#[trigger] bs[i]).0 == m ==> bs[i].1 == name
            &&& forall|i: int| 0 <= i < bs.len() && (#[trigger] bs[i]).1 == name ==> bs[i].0 == m
        },
        (0 <= idx < c.profiles.len() && chosen_mode(mode_idx) is None) ==> {
            let bs = bind_profile_spec(c, idx, mode_idx).bindings;
            forall|i: int| 0 <= i < bs.len() ==> (#[trigger] bs[i]).1 != c.profiles[idx as int].name
        },
{
    if 0 <= idx < c.profiles.len() {
        let name = c.profiles[idx as int].name;
        let b1 = without_name(c.bindings, name);
        lemma_without_name(c.bindings, name);
        assert(bindings_wf(b1)) by {
            assert forall|i: int, j: int| 0 <= i < j < b1.len() implies #[trigger] b1[i].0 != #[trigger] b1[j].0 && b1[i].1 != b1[j].1 by {
                let (a, b) = choose|a: int, b: int| 0 <= a < b < c.bindings.len() && c.bindings[a] == b1[i] && c.bindings[b] == b1[j];
                assert(c.bindings[a].0 != c.bindings[b].0);
            }
        }
        match chosen_mode(mode_idx) {
            Some(m) => {
                let b2 = without_mode(b1, m);
                lemma_without_mode(b1, m);
                let b3 = b2.push((m, name));
                assert forall|i: int| 0 <= i < b2.len() implies (#[trigger] b2[i]).1 != name && b2[i].0 != m by {
                    assert(b1.contains(b2[i]));
                    let k = choose|k: int| 0 <= k < b1.len() && b1[k] == b2[i];
                }
                assert(bindings_wf(b3)) by {
                    assert forall|i: int, j: int| 0 <= i < j < b3.len() implies #[trigger] b3[i].0 != #[trigger] b3[j].0 && b3[i].1 != b3[j].1 by {
                        if j < b2.len() {
                            let (a, b) = choose|a: int, b: int| 0 <= a < b < b1.len() && b1[a] == b2[i] && b1[b] == b2[j];
                            assert(b1[a].0 != b1[b].0);
                        } else {
                            assert(b3[i] == b2[i]);
                        }
                    }
                }
                assert(b3[b3.len() - 1] == (m, name));
                assert forall|i: int| 0 <= i < b3.len() && (#[trigger] b3[i]).0 == m implies b3[i].1 == name by {
                    if i < b2.len() {
                        assert(b3[i] == b2[i]);
                    }
                }
                assert forall|i: int| 0 <= i < b3.len() && (#[trigger] b3[i]).1 == name implies b3[i].0 == m by {
                    if i < b2.len() {
                        assert(b3[i] == b2[i]);
                    }
                }
                if mode_idx <= 0 {
                    assert(chosen_mode(mode_idx) is None);
                }
            },
            None => {
                assert forall|i: int| 0 <= i < b1.len() implies (#[trigger] b1[i]).1 != name by {}
            },
        }
    }
}


/// Index of the first profile named `name`.
pub open spec fn first_named(ps: Seq<ProfileView>, name: Seq<char>) -> Option<int>
    decreases ps.len(),
{
    if ps.len() == 0 {
        None
    } else if ps[0].name == name {
        Some(0)
    } else {
        match first_named(ps.drop_first(), name) {
            Some(k) => Some(k + 1),
            None => None,
        }
    }
}

/// Index of the first profile named `name` that is not built in.
pub open spec fn first_user_named(ps: Seq<ProfileView>, name: Seq<char>) -> Option<int>
    decreases ps.len(),
{
    if ps.len() == 0 {
        None
    } else if ps[0].name == name && !ps[0].builtin {
        Some(0)
    } else {
        match first_user_named(ps.drop_first(), name) {
            Some(k) => Some(k + 1),
            None => None,
        }
    }
}

proof fn lemma_first_named_bounds(ps: Seq<ProfileView>, name: Seq<char>)
    ensures
        first_named(ps, name) matches Some(k) ==> 0 <= k < ps.len() && ps[k].name == name,
        first_user_named(ps, name) matches Some(k) ==> 0 <= k < ps.len() && ps[k].name == name && !ps[k].builtin,
    decreases ps.len(),
{
    if ps.len() > 0 {
        lemma_first_named_bounds(ps.drop_first(), name);
    }
}

proof fn lemma_first_named_exists(ps: Seq<ProfileView>, name: Seq<char>, i: int)
    requires
        0 <= i < ps.len(),
        ps[i].name == name,
    ensures
        first_named(ps, name) is Some,
    decreases ps.len(),
{
    if ps[0].name != name {
        lemma_first_named_exists(ps.drop_first(), name, i - 1);
    }
}

fn find_named(ps: &Vec<Profile>, name: &String, user_only: bool) -> (r: Option<usize>)
    ensures
        !user_only ==> match r {
            Some(k) => first_named(profile_views(ps@), name@) == Some(k as int),
            None => first_named(profile_views(ps@), name@) is None,
        },
        user_only ==> match r {
            Some(k) => first_user_named(profile_views(ps@), name@) == Some(k as int),
            None => first_user_named(profile_views(ps@), name@) is None,
        },
{
    let n = ps.len();
    let mut i: usize = 0;
    let ghost pv = profile_views(ps@);
    assert(pv.skip(0) =~= pv);
    while i < n
        invariant
            n == ps@.len(),
            i <= n,
            pv == profile_views(ps@),
            !user_only ==> first_named(pv, name@) == (match first_named(pv.skip(i as int), name@) {
                Some(k) => Some(k + i),
                None => None::<int>,
            }),
            user_only ==> first_user_named(pv, name@) == (match first_user_named(pv.skip(i as int), name@) {
                Some(k) => Some(k + i),
                None => None::<int>,
            }),
        decreases n - i,
    {
        assert(pv.skip(i as int).drop_first() =~= pv.skip(i + 1));
        assert(pv.skip(i as int)[0] == ps@[i as int]@);
        if ps[i].name == *name && (!user_only || !ps[i].builtin) {
            return Some(i);
        }
        i = i + 1;
    }
    None
}

impl Config {
    /// Deletes the profile at `idx` together with its mode binding.
    /// Built-in profiles cannot be deleted.
    pub fn delete_profile(&mut self, idx: i32) -> (r: Edit)
        ensures
            !(0 <= idx < old(self)@.profiles.len()) ==> r is Missing && final(self)@ == old(self)@,
            (0 <= idx < old(self)@.profiles.len() && old(self)@.profiles[idx as int].builtin) ==> (r matches Edit::Refused(m)
                && m@ == "built-in profiles cannot be deleted"@ && final(self)@ == old(self)@),
            (0 <= idx < old(self)@.profiles.len() && !old(self)@.profiles[idx as int].builtin) ==> ({
                let c = old(self)@;
                let name = c.profiles[idx as int].name;
                &&& r matches Edit::Done(n) && n@ == name
                &&& final(self)@ == (ConfigView {
                    profiles: c.profiles.remove(idx as int),
                    bindings: without_name(c.bindings, name),
                    ..c
                })
            }),
    {
        if idx < 0 || idx as usize >= self.profiles.len() {
            return Edit::Missing;
        }
        let i = idx as usize;
        if self.profiles[i].builtin {
            return Edit::Refused(String::from_str("built-in profiles cannot be deleted"));
        }
        let name = self.profiles[i].name.clone();
        let ghost before = profile_views(self.profiles@);
        self.profiles.remove(i);
        assert(profile_views(self.profiles@) =~= before.remove(i as int));
        self.bindings = retain_other_names(&self.bindings, &name);
        Edit::Done(name)
    }

    /// Saves `p` under its name: it replaces the first profile of that name
    /// that is not built in, or is added at the end.
    pub fn save_profile(&mut self, p: Profile)
        ensures
            final(self)@ == (ConfigView {
                profiles: match first_user_named(old(self)@.profiles, p@.name) {
                    Some(k) => old(self)@.profiles.update(k, p@),
                    None => old(self)@.profiles.push(p@),
                },
                ..old(self)@
            }),
    {
        let ghost pv = p@;
        let ghost before = profile_views(self.profiles@);
        proof {
            lemma_first_named_bounds(before, pv.name);
        }
        match find_named(&self.profiles, &p.name, true) {
            Some(k) => {
                self.profiles.set(k, p);
                assert(profile_views(self.profiles@) =~= before.update(k as int, pv));
            },
            None => {
                self.profiles.push(p);
                assert(profile_views(self.profiles@) =~= before.push(pv));
            },
        }
    }

    /// Replaces the settings of the profile at `idx` with those of `with`,
    /// keeping its name, its power-plan binding and its kind.  Built-in
    /// profiles cannot be edited.
    pub fn update_profile(&mut self, idx: i32, with: Profile) -> (r: Edit)
        ensures
            !(0 <= idx < old(self)@.profiles.len()) ==> r is Missing && final(self)@ == old(self)@,
            (0 <= idx < old(self)@.profiles.len() && old(self)@.profiles[idx as int].builtin) ==> (r matches Edit::Refused(m)
                && m@ == "built-in profiles cannot be edited - use 'save as' to make your own"@
                && final(self)@ == old(self)@),
            (0 <= idx < old(self)@.profiles.len() && !old(self)@.profiles[idx as int].builtin) ==> ({
                let c = old(self)@;
                let cur = c.profiles[idx as int];
                &&& r matches Edit::Done(n) && n@ == cur.name
                &&& final(self)@ == (ConfigView {
                    profiles: c.profiles.update(idx as int, ProfileView {
                        name: cur.name,
                        power_plan: cur.power_plan,
                        builtin: cur.builtin,
                        ..with@
                    }),
                    ..c
                })
            }),
    {
        if idx < 0 || idx as usize >= self.profiles.len() {
            return Edit::Missing;
        }
        let i = idx as usize;
        if self.profiles[i].builtin {
            return Edit::Refused(String::from_str("built-in profiles cannot be edited - use 'save as' to make your own"));
        }
        let name = self.profiles[i].name.clone();
        let plan = copy_opt_string(&self.profiles[i].power_plan);
        let builtin = self.profiles[i].builtin;
        let ghost before = profile_views(self.profiles@);
        let ghost cur = before[i as int];
        let ghost wv = with@;
        let np = Profile { name: name.clone(), power_plan: plan, builtin, ..with };
        assert(np@ == ProfileView { name: cur.name, power_plan: cur.power_plan, builtin: cur.builtin, ..wv });
        self.profiles.set(i, np);
        assert(profile_views(self.profiles@) =~= before.update(i as int, ProfileView {
            name: cur.name,
            power_plan: cur.power_plan,
            builtin: cur.builtin,
            ..wv
        }));
        Edit::Done(name)
    }
}

/// The desktop plans, in the order the GUI's binding choices 3..=5 name
/// them.
pub open spec fn plan_name(which: i32) -> Seq<char> {
    if which == 3 {
        "power-saver"@
    } else if which == 4 {
        "balanced"@
    } else {
        "performance"@
    }
}

/// Binding the profile at `idx` to a power source (`which` 1: battery,
/// 2: AC) or to a desktop power plan (3..=5: power-saver, balanced,
/// performance); any other `which` only clears.  A profile follows one
/// source at a time, so its earlier source and plan bindings are cleared
/// first.  The plan is kept on the first profile of that name.
pub open spec fn bind_source_spec(c: ConfigView, idx: i32, which: i32) -> ConfigView {
    if !(0 <= idx < c.profiles.len()) {
        c
    } else {
        let name = c.profiles[idx as int].name;
        let bat = if c.on_battery_profile == Some(name) { None } else { c.on_battery_profile };
        let ac = if c.on_ac_profile == Some(name) { None } else { c.on_ac_profile };
        let k = first_named(c.profiles, name).unwrap();
        let ps1 = c.profiles.update(k, ProfileView { power_plan: None, ..c.profiles[k] });
        if which == 1 {
            ConfigView { profiles: ps1, on_battery_profile: Some(name), on_ac_profile: ac, ..c }
        } else if which == 2 {
            ConfigView { profiles: ps1, on_battery_profile: bat, on_ac_profile: Some(name), ..c }
        } else if 3 <= which <= 5 {
            let ps2 = ps1.update(k, ProfileView { power_plan: Some(plan_name(which)), ..c.profiles[k] });
            ConfigView { profiles: ps2, on_battery_profile: bat, on_ac_profile: ac, ..c }
        } else {
            ConfigView { profiles: ps1, on_battery_profile: bat, on_ac_profile: ac, ..c }
        }
    }
}

fn with_plan(p: &Profile, plan: Option<String>) -> (r: Profile)
    ensures
        r@ == (ProfileView { power_plan: opt_string(plan), ..p@ }),
{
    let mut q = p.copy();
    q.power_plan = plan;
    q
}

fn plan_literal(which: i32) -> (r: String)
    ensures
        r@ == plan_name(which),
{
    if which == 3 {
        String::from_str("power-saver")
    } else if which == 4 {
        String::from_str("balanced")
    } else {
        String::from_str("performance")
    }
}

impl Config {
    /// Binds the profile at `idx` to a power source or desktop plan (see
    /// `bind_source_spec`).  Returns the profile's name, or `None` when
    /// `idx` names no profile.
    pub fn bind_power_source(&mut self, idx: i32, which: i32) -> (r: Option<String>)
        ensures
            final(self)@ == bind_source_spec(old(self)@, idx, which),
            match r {
                Some(n) => 0 <= idx < old(self)@.profiles.len() && n@ == old(self)@.profiles[idx as int].name,
                None => !(0 <= idx < old(self)@.profiles.len()),
            },
    {
        if idx < 0 || idx as usize >= self.profiles.len() {
            return None;
        }
        let i = idx as usize;
        let name = self.profiles[i].name.clone();
        let ghost c = self@;
        let on_bat = match &self.on_battery_profile {
            Some(b) => if *b == name { None } else { Some(b.clone()) },
            None => None,
        };
        let on_ac = match &self.on_ac_profile {
            Some(b) => if *b == name { None } else { Some(b.clone()) },
            None => None,
        };
        proof {
            lemma_first_named_exists(c.profiles, name@, i as int);
            lemma_first_named_bounds(c.profiles, name@);
        }
        let k = match find_named(&self.profiles, &name, false) {
            Some(k) => k,
            None => {
                assert(false);
                return None;
            },
        };
        let ghost pk = c.profiles[k as int];
        let cleared = with_plan(&self.profiles[k], None);
        let ghost before = profile_views(self.profiles@);
        self.profiles.set(k, cleared);
        assert(profile_views(self.profiles@) =~= before.update(k as int, ProfileView { power_plan: None, ..pk }));
        if which == 1 {
            self.on_battery_profile = Some(name.clone());
            self.on_ac_profile = on_ac;
        } else if which == 2 {
            self.on_battery_profile = on_bat;
            self.on_ac_profile = Some(name.clone());
        } else if 3 <= which && which <= 5 {
            let planned = with_plan(&self.profiles[k], Some(plan_literal(which)));
            let ghost mid = profile_views(self.profiles@);
            self.profiles.set(k, planned);
            assert(profile_views(self.profiles@) =~= mid.update(k as int, ProfileView {
                power_plan: Some(plan_name(which)),
                ..pk
            }));
            self.on_battery_profile = on_bat;
            self.on_ac_profile = on_ac;
        } else {
            self.on_battery_profile = on_bat;
            self.on_ac_profile = on_ac;
        }
        Some(name)
    }
}


/// Removing a profile's bindings keeps the bindings one-to-one and leaves
/// none for it.
pub proof fn lemma_unbinding_keeps_one_to_one(bs: Seq<(i32, Seq<char>)>, name: Seq<char>)
    requires
        bindings_wf(bs),
    ensures
        bindings_wf(without_name(bs, name)),
        forall|i: int| 0 <= i < without_name(bs, name).len() ==> (#[trigger] without_name(bs, name)[i]).1 != name,
{
    let w = without_name(bs, name);
    lemma_without_name(bs, name);
    assert forall|i: int, j: int| 0 <= i < j < w.len() implies #[trigger] w[i].0 != #[trigger] w[j].0 && w[i].1 != w[j].1 by {
        let (a, b) = choose|a: int, b: int| 0 <= a < b < bs.len() && bs[a] == w[i] && bs[b] == w[j];
        assert(bs[a].0 != bs[b].0);
    }
}


/// A profile follows one power source at a time: binding it to the battery
/// unbinds it from AC and the other way round, and binding it to a desktop
/// plan unbinds it from both, with the plan kept on its first profile of
/// that name.  Other profiles' source bindings stay.
pub proof fn lemma_one_source_at_a_time(c: ConfigView, idx: i32, which: i32)
    requires
        0 <= idx < c.profiles.len(),
    ensures
        ({
            let name = c.profiles[idx as int].name;
            let r = bind_source_spec(c, idx, which);
            &&& which == 1 ==> r.on_battery_profile == Some(name) && r.on_ac_profile != Some(name)
            &&& which == 2 ==> r.on_ac_profile == Some(name) && r.on_battery_profile != Some(name)
            &&& which != 1 ==> r.on_battery_profile != Some(name)
            &&& which != 2 ==> r.on_ac_profile != Some(name)
            &&& (which != 1 && c.on_battery_profile != Some(name)) ==> r.on_battery_profile == c.on_battery_profile
            &&& (which != 2 && c.on_ac_profile != Some(name)) ==> r.on_ac_profile == c.on_ac_profile
            &&& 3 <= which <= 5 ==> exists|k: int| 0 <= k < r.profiles.len() && r.profiles[k].name == name
                && r.profiles[k].power_plan == Some(plan_name(which))
            &&& r.profiles.len() == c.profiles.len()
            &&& r.bindings == c.bindings
        }),
{
    let name = c.profiles[idx as int].name;
    lemma_first_named_exists(c.profiles, name, idx as int);
    lemma_first_named_bounds(c.profiles, name);
    let k = first_named(c.profiles, name).unwrap();
    let r = bind_source_spec(c, idx, which);
    if 3 <= which <= 5 {
        assert(r.profiles[k].name == name);
        assert(r.profiles[k].power_plan == Some(plan_name(which)));
    }
}

/// Loading replaces only the profile list: power-mode bindings, source
/// bindings, the start-up profile and the boot setting are kept as read, and
/// saving writes them unchanged.  A missing file gives no bindings.
pub proof fn lemma_load_keeps_settings(c: ConfigView)
    ensures
        load_spec(Some(c)).bindings == c.bindings,
        load_spec(Some(c)).apply_on_start == c.apply_on_start,
        load_spec(Some(c)).persist == c.persist,
        load_spec(Some(c)).on_battery_profile == c.on_battery_profile,
        load_spec(Some(c)).on_ac_profile == c.on_ac_profile,
        saved_spec(c).bindings == c.bindings,
        saved_spec(c).apply_on_start == c.apply_on_start,
        saved_spec(c).persist == c.persist,
        saved_spec(c).on_battery_profile == c.on_battery_profile,
        saved_spec(c).on_ac_profile == c.on_ac_profile,
        load_spec(None).bindings.len() == 0,
        load_spec(Some(saved_spec(load_spec(Some(c))))).bindings == c.bindings,
{
}

} // verus!
