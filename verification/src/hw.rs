//! The laptop's sysfs interface: where each setting lives, how readings turn
//! into numbers, and which writes each operation performs.

use vstd::prelude::*;
use vstd::string::*;
use crate::curve::{pwm_of, rpm_of};
pub use crate::curve::{pwm_to_rpm, rpm_to_pwm};
pub use crate::sysfs::read_i32;
use crate::sysfs::{
    flag_on, i32_or, is_on, read_i32_or, read_i32_spec, report_write, reported,
    opt_view, OnError, OnErrorView, Step, StepView, Sysfs, plan_view,
};
pub use crate::screen::{current_refresh, refresh_rates};
use crate::text::{decimal, first_field, field_before, i64_to_string, parse_i32, parse_int, trim, trimmed};

verus! {

/// The embedded controller's attributes, exposed by `legion_laptop`.
pub const LEGION: &'static str = "/sys/bus/platform/devices/PNP0C09:00";

/// The package power-limit domain of `intel_rapl`.
pub const RAPL: &'static str = "/sys/class/powercap/intel-rapl:0";

/// The root-owned helper that performs every privileged write.
pub const HELPER: &'static str = "/usr/local/lib/83sc-control/helper.py";

/// The `intel_pstate` driver's global knobs.
pub const PSTATE: &'static str = "/sys/devices/system/cpu/intel_pstate";

/// Number of points in the fan curve.
pub const POINTS: usize = 10;

/// `base/node`.
pub open spec fn join(base: Seq<char>, node: Seq<char>) -> Seq<char> {
    base + seq!['/'] + node
}

pub fn join_path(base: &str, node: &str) -> (r: String)
    ensures
        r@ == join(base@, node@),
{
    let mut r = String::from_str(base);
    r.append("/");
    proof {
        reveal_strlit("/");
    }
    r.append(node);
    assert(r@ =~= join(base@, node@));
    r
}

pub fn legion_path(node: &str) -> (r: String)
    ensures
        r@ == join(LEGION@, node@),
{
    join_path(LEGION, node)
}


/// The two hwmon directories the library reads from.
pub struct Hw {
    /// The `legion_hwmon` directory: fan, fan curve and GPU temperature.
    pub legion_hwmon: Option<String>,
    /// The `coretemp` directory: CPU package temperature.
    pub coretemp: Option<String>,
}

pub open spec fn str_opt(o: Option<String>) -> Option<Seq<char>> {
    match o {
        Some(s) => Some(s@),
        None => None,
    }
}

/// Reads `path` when there is one.
pub open spec fn read_at(fs: Sysfs, path: Option<Seq<char>>) -> Option<Seq<char>> {
    match path {
        Some(p) => fs.read_spec(p),
        None => None,
    }
}

pub open spec fn point_node(i: int, suffix: Seq<char>) -> Seq<char> {
    "pwm1_auto_point"@ + decimal(i) + suffix
}

/// Hysteresis written with a curve point: 8 degrees under the first trip
/// temperature, 5 under every later one, never below zero.
pub open spec fn hyst_of(idx: int, temp: int) -> int {
    let h = if idx == 0 { temp - 8 } else { temp - 5 };
    if h < 0 { 0 } else { h }
}

pub open spec fn point_prefix(i: int) -> Seq<char> {
    "point "@ + decimal(i) + ": "@
}

/// The three writes for the point at `idx` (trip temperature, hysteresis,
/// duty value), or none when there is no `legion_hwmon` directory.
pub open spec fn point_steps(dir: Option<Seq<char>>, pts: Seq<(i32, i32)>, max_rpm: int, idx: int) -> Seq<StepView> {
    match dir {
        None => Seq::empty(),
        Some(d) => {
            let i = idx + 1;
            let t = pts[idx].0 as int;
            let r = pts[idx].1 as int;
            let on_error = OnErrorView::Report(point_prefix(i));
            seq![
                StepView::Write { path: join(d, point_node(i, "_temp"@)), value: t, on_error },
                StepView::Write { path: join(d, point_node(i, "_temp_hyst"@)), value: hyst_of(idx, t), on_error },
                StepView::Write { path: join(d, point_node(i, "_pwm"@)), value: pwm_of(r, max_rpm), on_error },
            ]
        },
    }
}

/// The writes of the points `k - 1` down to `0`, highest first.
pub open spec fn points_desc(dir: Option<Seq<char>>, pts: Seq<(i32, i32)>, max_rpm: int, k: nat) -> Seq<StepView>
    decreases k,
{
    if k == 0 {
        Seq::empty()
    } else {
        point_steps(dir, pts, max_rpm, k - 1) + points_desc(dir, pts, max_rpm, (k - 1) as nat)
    }
}

/// The hwmon value of the fan's maximum speed when it is a positive number,
/// else the 5400 rpm this model's fan reaches.
pub open spec fn fan_max_of(raw: Option<Seq<char>>) -> int {
    match read_i32_spec(raw) {
        Some(v) => if v > 0 { v } else { 5400 },
        None => 5400,
    }
}

/// The powermode value that makes curve writes stick.
pub open spec fn custom_mode() -> int {
    255
}

impl Hw {
    pub open spec fn dir(&self) -> Option<Seq<char>> {
        str_opt(self.legion_hwmon)
    }

    /// The path of a `legion_hwmon` node.
    pub open spec fn lh_spec(&self, node: Seq<char>) -> Option<Seq<char>> {
        match self.legion_hwmon {
            Some(d) => Some(join(d@, node)),
            None => None,
        }
    }

    pub open spec fn fan_max_spec(&self, fs: Sysfs) -> int {
        fan_max_of(read_at(fs, self.lh_spec("fan1_max"@)))
    }

    /// Whether the `legion_laptop` driver is loaded.
    pub fn present(&self) -> (r: bool)
        ensures
            r == (self.legion_hwmon is Some),
    {
        self.legion_hwmon.is_some()
    }

    /// The path of a node in the `legion_hwmon` directory.
    pub fn lh(&self, node: &str) -> (r: Option<String>)
        ensures
            str_opt(r) == self.lh_spec(node@),
    {
        match &self.legion_hwmon {
            Some(d) => Some(join_path(d.as_str(), node)),
            None => None,
        }
    }

    fn read_lh<'a>(&self, fs: &'a Sysfs, node: &str) -> (r: Option<&'a str>)
        ensures
            opt_view(r) == read_at(*fs, self.lh_spec(node@)),
    {
        match self.lh(node) {
            Some(p) => fs.read(p.as_str()),
            None => None,
        }
    }

    /// The fan's maximum speed in rpm.
    pub fn fan_max(&self, fs: &Sysfs) -> (r: i32)
        ensures
            r == self.fan_max_spec(*fs),
            r > 0,
    {
        match read_i32(self.read_lh(fs, "fan1_max")) {
            Some(v) => if v > 0 { v } else { 5400 },
            None => 5400,
        }
    }

    /// Every trip point of the curve has a trip temperature from which the
    /// hysteresis can be computed without overflow.
    pub open spec fn curve_temps_ok(pts: Seq<(i32, i32)>) -> bool {
        forall|i: int| 0 <= i < pts.len() ==> pts[i].0 >= i32::MIN + 8
    }

    /// First half of writing a curve: curve writes are silently dropped
    /// outside custom powermode (255), so unless the snapshot shows that mode,
    /// switch to it and give the controller 1.5 s to reload its table.
    pub fn write_curve_mode(&self, fs: &Sysfs) -> (r: Vec<Step>)
        ensures
            read_i32_spec(fs.read_spec(join(LEGION@, "powermode"@))) == Some(custom_mode())
                ==> r@.len() == 0,
            read_i32_spec(fs.read_spec(join(LEGION@, "powermode"@))) != Some(custom_mode())
                ==> plan_view(r@) == seq![
                    StepView::Write {
                        path: join(LEGION@, "powermode"@),
                        value: custom_mode(),
                        on_error: OnErrorView::Report("could not enter custom powermode: "@),
                    },
                    StepView::Sleep { ms: 1500 },
                ],
    {
        let mut out: Vec<Step> = Vec::new();
        let pm = legion_path("powermode");
        if read_i32(fs.read(pm.as_str())) != Some(255i32) {
            let prefix = String::from_str("could not enter custom powermode: ");
            out.push(Step::Write { path: pm, value: 255, on_error: OnError::Report(prefix) });
            out.push(Step::Sleep { ms: 1500 });
            assert(plan_view(out@) =~= seq![
                StepView::Write {
                    path: join(LEGION@, "powermode"@),
                    value: custom_mode(),
                    on_error: OnErrorView::Report("could not enter custom powermode: "@),
                },
                StepView::Sleep { ms: 1500 },
            ]);
        }
        out
    }

    /// What has to be cleared before a curve means anything: `fan_fullspeed`
    /// pins the fan to maximum and overrides the curve, `minifancurve`
    /// permits a complete stop.  Read after the mode switch.
    pub open spec fn clear_steps(&self, fs: Sysfs) -> Seq<StepView> {
        let full = join(LEGION@, "fan_fullspeed"@);
        let a = if fs.read_spec(full) != Some(seq!['0']) {
            seq![StepView::Write { path: full, value: 0, on_error: OnErrorView::Ignore }]
        } else {
            Seq::empty()
        };
        let b = match self.lh_spec("minifancurve"@) {
            Some(p) => if fs.read_spec(p) == Some(seq!['1']) {
                seq![StepView::Write { path: p, value: 0, on_error: OnErrorView::Ignore }]
            } else {
                Seq::empty()
            },
            None => Seq::empty(),
        };
        a + b
    }

    /// Second half of writing a curve: clear the overrides, then write each
    /// point's trip temperature, hysteresis and duty value, highest point
    /// first, because the firmware needs trip temperatures to increase and
    /// writing low-to-high can transiently invert a pair.  `before` is the
    /// snapshot taken before the mode switch, `after` the one after it.
    pub fn write_curve(&self, before: &Sysfs, after: &Sysfs, pts: &Vec<(i32, i32)>) -> (r: Vec<Step>)
        requires
            Self::curve_temps_ok(pts@),
            pts@.len() < 0x1_0000_0000,
        ensures
            plan_view(r@) == self.clear_steps(*after)
                + points_desc(self.dir(), pts@, self.fan_max_spec(*before), pts@.len()),
    {
        let mx = self.fan_max(before);
        let mut out: Vec<Step> = Vec::new();
        let full = legion_path("fan_fullspeed");
        proof {
            reveal_strlit("0");
            reveal_strlit("1");
        }
        assert("0"@ =~= seq!['0']);
        assert("1"@ =~= seq!['1']);
        if !crate::text::opt_str_is(after.read(full.as_str()), "0") {
            out.push(Step::Write { path: full, value: 0, on_error: OnError::Ignore });
        }
        match self.lh("minifancurve") {
            Some(p) => {
                if is_on(after.read(p.as_str())) {
                    out.push(Step::Write { path: p, value: 0, on_error: OnError::Ignore });
                }
            },
            None => {},
        }
        assert(plan_view(out@) =~= self.clear_steps(*after));
        let n = pts.len();
        let mut k: usize = n;
        while k > 0
            invariant
                n == pts@.len(),
                n < 0x1_0000_0000,
                k <= n,
                mx == self.fan_max_spec(*before),
                Self::curve_temps_ok(pts@),
                self.clear_steps(*after) + points_desc(self.dir(), pts@, mx as int, n as nat)
                    == plan_view(out@) + points_desc(self.dir(), pts@, mx as int, k as nat),
            decreases k,
        {
            let idx = k - 1;
            let i = k;
            let (temp, rpm) = pts[idx];
            assert(temp >= i32::MIN + 8);
            let hyst = if idx == 0 { temp - 8 } else { temp - 5 };
            let hyst = if hyst < 0 { 0 } else { hyst };
            let ghost before_out = plan_view(out@);
            match &self.legion_hwmon {
                Some(d) => {
                    let num = i64_to_string(i as i64);
                    let mut prefix = String::from_str("point ");
                    prefix.append(num.as_str());
                    prefix.append(": ");
                    let t_node = point_node_name(num.as_str(), "_temp");
                    let h_node = point_node_name(num.as_str(), "_temp_hyst");
                    let p_node = point_node_name(num.as_str(), "_pwm");
                    let p1 = prefix.clone();
                    let p2 = prefix.clone();
                    out.push(Step::Write { path: join_path(d.as_str(), t_node.as_str()), value: temp, on_error: OnError::Report(p1) });
                    out.push(Step::Write { path: join_path(d.as_str(), h_node.as_str()), value: hyst, on_error: OnError::Report(p2) });
                    out.push(Step::Write { path: join_path(d.as_str(), p_node.as_str()), value: rpm_to_pwm(rpm, mx), on_error: OnError::Report(prefix) });
                    assert(plan_view(out@) =~= before_out + point_steps(self.dir(), pts@, mx as int, idx as int));
                },
                None => {
                    assert(point_steps(self.dir(), pts@, mx as int, idx as int) =~= Seq::<StepView>::empty());
                    assert(plan_view(out@) =~= before_out + point_steps(self.dir(), pts@, mx as int, idx as int));
                },
            }
            assert(points_desc(self.dir(), pts@, mx as int, k as nat)
                == point_steps(self.dir(), pts@, mx as int, idx as int) + points_desc(self.dir(), pts@, mx as int, idx as nat));
            assert(before_out + points_desc(self.dir(), pts@, mx as int, k as nat)
                =~= plan_view(out@) + points_desc(self.dir(), pts@, mx as int, idx as nat));
            k = idx;
        }
        assert(plan_view(out@) + points_desc(self.dir(), pts@, mx as int, 0) =~= plan_view(out@));
        out
    }
}

/// `pwm1_auto_point{i}{suffix}` for the decimal text `num` of `i`.
fn point_node_name(num: &str, suffix: &str) -> (r: String)
    ensures
        r@ == "pwm1_auto_point"@ + num@ + suffix@,
{
    let mut r = String::from_str("pwm1_auto_point");
    r.append(num);
    r.append(suffix);
    r
}


/// Integer division truncating toward zero, as Rust's `/` does.
pub open spec fn tdiv(a: int, d: int) -> int {
    if a >= 0 {
        a / d
    } else {
        -((-a) / d)
    }
}

pub fn tdiv_i64(a: i64, d: i64) -> (r: i64)
    requires
        d > 0,
        a > i64::MIN,
    ensures
        r == tdiv(a as int, d as int),
{
    if a >= 0 {
        a / d
    } else {
        0 - ((0 - a) / d)
    }
}

proof fn lemma_tdiv_bound(a: int, d: int)
    requires
        d >= 1,
    ensures
        a >= 0 ==> 0 <= tdiv(a, d) <= a,
        a < 0 ==> a <= tdiv(a, d) <= 0,
{
    if a >= 0 {
        assert(a / d <= a) by (nonlinear_arith)
            requires
                a >= 0,
                d >= 1,
        ;
    } else {
        assert((-a) / d <= -a) by (nonlinear_arith)
            requires
                -a >= 0,
                d >= 1,
        ;
    }
}

pub fn tdiv_i32(a: i32, d: i32) -> (r: i32)
    requires
        d > 0,
    ensures
        r == tdiv(a as int, d as int),
{
    proof {
        lemma_tdiv_bound(a as int, d as int);
    }
    tdiv_i64(a as i64, d as i64) as i32
}

/// Whether a duty value converts to a fan speed that fits an `i32`.
pub open spec fn rpm_fits(pwm: int, max_rpm: int) -> bool {
    i32::MIN <= rpm_of(pwm, max_rpm) <= i32::MAX
}

pub fn rpm_fits_exec(pwm: i32, max_rpm: i32) -> (r: bool)
    ensures
        r == rpm_fits(pwm as int, max_rpm as int),
{
    assert(-0x4000_0000_0000_0000 <= (pwm as int) * (max_rpm as int) <= 0x4000_0000_0000_0000)
        by (nonlinear_arith)
        requires
            i32::MIN <= pwm <= i32::MAX,
            i32::MIN <= max_rpm <= i32::MAX,
    ;
    let n64 = (pwm as i64) * (max_rpm as i64);
    let n = n64 as i128;
    assert(-0x4000_0000_0000_0000 <= n <= 0x4000_0000_0000_0000) by (nonlinear_arith)
        requires
            n == (pwm as int) * (max_rpm as int),
            i32::MIN <= pwm <= i32::MAX,
            i32::MIN <= max_rpm <= i32::MAX,
    ;
    let q = crate::curve::round_div_exec(n, 25500);
    assert(-0x8000_0000_0000_0000 <= q <= 0x8000_0000_0000_0000) by {
        crate::curve::lemma_round_div_magnitude(n as int, 25500);
    }
    let v = q * 100;
    i32::MIN as i128 <= v && v <= i32::MAX as i128
}

impl Hw {
    /// One point of the curve as the hardware describes it: the trip
    /// temperature of point `i` (counted from 1) and the fan speed of its
    /// duty value; an unreadable node counts as 0.
    pub open spec fn curve_point(&self, fs: Sysfs, i: int) -> (int, int) {
        let t = i32_or(read_at(fs, self.lh_spec(point_node(i, "_temp"@))), 0);
        let p = i32_or(read_at(fs, self.lh_spec(point_node(i, "_pwm"@))), 0);
        (t, rpm_of(p, self.fan_max_spec(fs)))
    }

    /// Every duty value of the curve converts to a fan speed that fits an
    /// `i32`.
    pub open spec fn curve_fits(&self, fs: Sysfs) -> bool {
        forall|i: int| 1 <= i <= 10 ==> rpm_fits(
            i32_or(read_at(fs, #[trigger] self.lh_spec(point_node(i, "_pwm"@))), 0),
            self.fan_max_spec(fs),
        )
    }

    fn point_value(&self, fs: &Sysfs, num: &str, suffix: &str) -> (r: i32)
        ensures
            r == i32_or(read_at(*fs, self.lh_spec("pwm1_auto_point"@ + num@ + suffix@)), 0),
    {
        let node = point_node_name(num, suffix);
        read_i32_or(self.read_lh(fs, node.as_str()), 0)
    }

    /// Whether `read_curve` can convert every point of this snapshot.
    pub fn curve_readable(&self, fs: &Sysfs) -> (r: bool)
        ensures
            r == self.curve_fits(*fs),
    {
        let mx = self.fan_max(fs);
        let mut i: usize = 1;
        while i <= 10
            invariant
                1 <= i <= 11,
                mx == self.fan_max_spec(*fs),
                forall|j: int| 1 <= j < i ==> rpm_fits(
                    i32_or(read_at(*fs, #[trigger] self.lh_spec(point_node(j, "_pwm"@))), 0),
                    mx as int,
                ),
            decreases 11 - i,
        {
            let num = i64_to_string(i as i64);
            let pwm = self.point_value(fs, num.as_str(), "_pwm");
            if !rpm_fits_exec(pwm, mx) {
                assert(!rpm_fits(i32_or(read_at(*fs, self.lh_spec(point_node(i as int, "_pwm"@))), 0), mx as int));
                return false;
            }
            i = i + 1;
        }
        true
    }

    /// The curve as the hardware describes it: ten points of trip
    /// temperature and fan speed.
    pub fn read_curve(&self, fs: &Sysfs) -> (r: Vec<(i32, i32)>)
        requires
            self.curve_fits(*fs),
        ensures
            r@.len() == 10,
            forall|k: int| 0 <= k < 10 ==> (r@[k].0 as int, r@[k].1 as int) == #[trigger] self.curve_point(*fs, k + 1),
    {
        let mx = self.fan_max(fs);
        let mut out: Vec<(i32, i32)> = Vec::new();
        let mut i: usize = 1;
        while i <= 10
            invariant
                1 <= i <= 11,
                out@.len() == i - 1,
                mx == self.fan_max_spec(*fs),
                self.curve_fits(*fs),
                forall|k: int| 0 <= k < i - 1 ==> (out@[k].0 as int, out@[k].1 as int) == #[trigger] self.curve_point(*fs, k + 1),
            decreases 11 - i,
        {
            let num = i64_to_string(i as i64);
            let t = self.point_value(fs, num.as_str(), "_temp");
            let pwm = self.point_value(fs, num.as_str(), "_pwm");
            assert(rpm_fits(i32_or(read_at(*fs, self.lh_spec(point_node(i as int, "_pwm"@))), 0), mx as int));
            let rpm = pwm_to_rpm(pwm, mx);
            out.push((t, rpm));
            i = i + 1;
        }
        out
    }
}


/// The two LED nodes behind the single keyboard backlight zone: ideapad and
/// legion_laptop each register one, and both drive the same EC register.
pub const KBD_LED: &'static str = "/sys/class/leds/platform::kbd_backlight/brightness";

pub const KBD_LED_1: &'static str = "/sys/class/leds/platform::kbd_backlight_1/brightness";

pub const KBD_MAX: &'static str = "/sys/class/leds/platform::kbd_backlight/max_brightness";

pub const PROCHOT_COUNT: &'static str = "/sys/devices/system/cpu/cpu0/thermal_throttle/package_throttle_count";

pub const AC_ONLINE: &'static str = "/sys/class/power_supply/ACAD/online";

pub const BATTERY: &'static str = "/sys/class/power_supply/BAT1";

/// The thermal and power state, polled often.  The discrete GPU's power
/// draw comes from `nvidia-smi` as a decimal and is kept by the caller.
#[derive(Clone, Copy, Debug, PartialEq, Eq)]
pub struct Telemetry {
    pub cpu_temp: i32,
    pub gpu_temp: i32,
    pub fan_rpm: i32,
    pub fan_max: i32,
    pub cpu_mhz: i32,
    pub pl1: i32,
    pub pl2: i32,
    pub tau: i32,
    pub powermode: i32,
    pub prochot: i32,
    pub fan_fullspeed: bool,
    pub minifancurve: bool,
    pub undervolt_mv: i32,
    pub max_perf_pct: i32,
    pub on_battery: bool,
}

/// Everything outside the thermal/power core: battery, input, panel and the
/// embedded controller's own limits.  Polled less often than `Telemetry`
/// because none of it moves on its own.  Battery voltage and power stay in
/// the microvolts and microwatts the kernel reports.
#[derive(Debug, PartialEq, Eq)]
pub struct Extras {
    pub bat_capacity: i32,
    pub bat_cycles: i32,
    pub bat_health: i32,
    pub bat_voltage_uv: i32,
    pub bat_power_uw: i32,
    pub bat_status: String,
    pub bat_model: String,
    pub conservation: bool,
    pub rapid_charge: bool,
    pub kbd_backlight: i32,
    pub kbd_max: i32,
    pub fn_lock: bool,
    pub winkey: bool,
    pub touchpad: bool,
    pub flip_to_start: bool,
    pub overdrive: bool,
    pub refresh_hz: i32,
    pub cpu_temp_limit: i32,
    pub gpu_temp_limit: i32,
    pub cross_loading: i32,
    pub ec_tau: i32,
    pub pl_coupling: bool,
    pub gpu_boost: i32,
    pub gpu_target_offset: i32,
    pub gpu_name: String,
    pub gpu_pl_max: i32,
    pub igpu_mode: i32,
}

/// The CPU frequencies (kHz) among the readings that parse as numbers, in
/// order.
pub open spec fn parsed_freqs(s: Seq<String>) -> Seq<int>
    decreases s.len(),
{
    if s.len() == 0 {
        Seq::empty()
    } else {
        let rest = parsed_freqs(s.drop_last());
        match parse_int(trimmed(s.last()@), true, i32::MIN as int, i32::MAX as int) {
            Some(v) => rest.push(v),
            None => rest,
        }
    }
}

pub open spec fn sum_of(s: Seq<int>) -> int
    decreases s.len(),
{
    if s.len() == 0 {
        0
    } else {
        sum_of(s.drop_last()) + s.last()
    }
}

/// Average CPU clock in MHz over the readings that parse, 0 when none does.
pub open spec fn avg_mhz(s: Seq<String>) -> int {
    let v = parsed_freqs(s);
    if v.len() > 0 {
        tdiv(tdiv(sum_of(v), v.len() as int), 1000)
    } else {
        0
    }
}

proof fn lemma_avg_bound(sum: int, n: int)
    requires
        n >= 1,
        -n * 0x8000_0000 <= sum <= n * 0x7fff_ffff,
    ensures
        -0x8000_0000 <= tdiv(sum, n) <= 0x7fff_ffff,
{
    if sum >= 0 {
        assert(sum / n <= 0x7fff_ffff) by (nonlinear_arith)
            requires
                sum >= 0,
                n >= 1,
                sum <= n * 0x7fff_ffff,
        ;
        assert(sum / n >= 0) by (nonlinear_arith)
            requires
                sum >= 0,
                n >= 1,
        ;
    } else {
        assert((-sum) / n <= 0x8000_0000) by (nonlinear_arith)
            requires
                -sum >= 0,
                n >= 1,
                -sum <= n * 0x8000_0000,
        ;
        assert((-sum) / n >= 0) by (nonlinear_arith)
            requires
                -sum >= 0,
                n >= 1,
        ;
    }
}

/// The average clock of the CPUs whose `scaling_cur_freq` was read.
pub fn average_mhz(freqs: &Vec<String>) -> (r: i32)
    requires
        freqs@.len() < 0x8000_0000,
    ensures
        r == avg_mhz(freqs@),
{
    let mut sum: i64 = 0;
    let mut n: i64 = 0;
    let mut i: usize = 0;
    while i < freqs.len()
        invariant
            i <= freqs@.len() < 0x8000_0000,
            n == parsed_freqs(freqs@.take(i as int)).len(),
            sum == sum_of(parsed_freqs(freqs@.take(i as int))),
            n <= i,
            -n * 0x8000_0000 <= sum <= n * 0x7fff_ffff,
        decreases freqs@.len() - i,
    {
        assert(freqs@.take(i + 1).drop_last() =~= freqs@.take(i as int));
        assert(freqs@.take(i + 1).last() == freqs@[i as int]);
        let ghost rest = parsed_freqs(freqs@.take(i as int));
        match parse_i32(trim(freqs[i].as_str())) {
            Some(v) => {
                assert(rest.push(v as int).drop_last() =~= rest);
                assert(sum_of(rest.push(v as int)) == sum_of(rest) + v);
                sum = sum + v as i64;
                n = n + 1;
            },
            None => {},
        }
        i = i + 1;
    }
    assert(freqs@.take(freqs@.len() as int) =~= freqs@);
    if n > 0 {
        proof {
            lemma_avg_bound(sum as int, n as int);
        }
        let a = tdiv_i64(sum, n);
        proof {
            lemma_tdiv_bound(a as int, 1000);
        }
        tdiv_i64(a, 1000) as i32
    } else {
        0
    }
}

/// A value under the embedded controller's directory.
pub open spec fn legion_read(fs: Sysfs, node: Seq<char>) -> Option<Seq<char>> {
    fs.read_spec(join(LEGION@, node))
}

pub open spec fn rapl_read(fs: Sysfs, node: Seq<char>) -> Option<Seq<char>> {
    fs.read_spec(join(RAPL@, node))
}

pub open spec fn bat_read(fs: Sysfs, node: Seq<char>) -> Option<Seq<char>> {
    fs.read_spec(join(BATTERY@, node))
}

pub open spec fn text_or_empty(o: Option<Seq<char>>) -> Seq<char> {
    match o {
        Some(s) => s,
        None => Seq::empty(),
    }
}

pub fn owned_or_empty(o: Option<&str>) -> (r: String)
    ensures
        r@ == text_or_empty(opt_view(o)),
{
    match o {
        Some(s) => s.to_owned(),
        None => String::new(),
    }
}

pub open spec fn health_of(full: int, design: int) -> int {
    if design > 0 {
        (tdiv(full * 100, design)) as i32 as int
    } else {
        0
    }
}

pub open spec fn opt_or(o: Option<int>, d: int) -> int {
    match o {
        Some(v) => v,
        None => d,
    }
}

impl Hw {
    /// The CPU package temperature in degrees, 0 without `coretemp`.
    pub open spec fn cpu_temp_spec(&self, fs: Sysfs) -> int {
        match self.coretemp {
            Some(c) => tdiv(i32_or(fs.read_spec(join(c@, "temp1_input"@)), 0), 1000),
            None => 0,
        }
    }

    /// The telemetry of a snapshot, the clocks of the CPUs and the undervolt
    /// offset already read.
    pub fn telemetry(&self, fs: &Sysfs, freqs: &Vec<String>, undervolt_mv: i32) -> (t: Telemetry)
        requires
            freqs@.len() < 0x8000_0000,
        ensures
            t.fan_max == self.fan_max_spec(*fs),
            t.cpu_temp == self.cpu_temp_spec(*fs),
            t.gpu_temp == (match self.lh_spec("temp2_input"@) {
                Some(p) => tdiv(i32_or(fs.read_spec(p), 0), 1000),
                None => 0,
            }),
            t.fan_rpm == (match self.lh_spec("fan1_input"@) {
                Some(p) => i32_or(fs.read_spec(p), 0),
                None => 0,
            }),
            t.minifancurve == (match self.lh_spec("minifancurve"@) {
                Some(p) => flag_on(fs.read_spec(p)),
                None => false,
            }),
            t.fan_fullspeed == flag_on(legion_read(*fs, "fan_fullspeed"@)),
            t.powermode == i32_or(legion_read(*fs, "powermode"@), -1),
            t.pl1 == tdiv(i32_or(rapl_read(*fs, "constraint_0_power_limit_uw"@), 0), 1_000_000),
            t.pl2 == tdiv(i32_or(rapl_read(*fs, "constraint_1_power_limit_uw"@), 0), 1_000_000),
            t.tau == tdiv(i32_or(rapl_read(*fs, "constraint_0_time_window_us"@), 0), 1_000_000),
            t.prochot == i32_or(fs.read_spec(PROCHOT_COUNT@), 0),
            t.max_perf_pct == i32_or(fs.read_spec(join(PSTATE@, "max_perf_pct"@)), 100),
            t.on_battery == (fs.read_spec(AC_ONLINE@) == Some(seq!['0'])),
            t.undervolt_mv == undervolt_mv,
            t.cpu_mhz == avg_mhz(freqs@),
    {
        let cpu_temp = match &self.coretemp {
            Some(c) => {
                let p = join_path(c.as_str(), "temp1_input");
                tdiv_i32(read_i32_or(fs.read(p.as_str()), 0), 1000)
            },
            None => 0,
        };
        let gpu_temp = match self.lh("temp2_input") {
            Some(p) => tdiv_i32(read_i32_or(fs.read(p.as_str()), 0), 1000),
            None => 0,
        };
        let fan_rpm = match self.lh("fan1_input") {
            Some(p) => read_i32_or(fs.read(p.as_str()), 0),
            None => 0,
        };
        let minifancurve = match self.lh("minifancurve") {
            Some(p) => is_on(fs.read(p.as_str())),
            None => false,
        };
        let pl1 = tdiv_i32(read_i32_or(fs.read(join_path(RAPL, "constraint_0_power_limit_uw").as_str()), 0), 1_000_000);
        let pl2 = tdiv_i32(read_i32_or(fs.read(join_path(RAPL, "constraint_1_power_limit_uw").as_str()), 0), 1_000_000);
        let tau = tdiv_i32(read_i32_or(fs.read(join_path(RAPL, "constraint_0_time_window_us").as_str()), 0), 1_000_000);
        proof {
            reveal_strlit("0");
        }
        assert("0"@ =~= seq!['0']);
        Telemetry {
            cpu_temp,
            gpu_temp,
            fan_rpm,
            fan_max: self.fan_max(fs),
            cpu_mhz: average_mhz(freqs),
            pl1,
            pl2,
            tau,
            powermode: read_i32_or(fs.read(legion_path("powermode").as_str()), -1),
            prochot: read_i32_or(fs.read(PROCHOT_COUNT), 0),
            fan_fullspeed: is_on(fs.read(legion_path("fan_fullspeed").as_str())),
            minifancurve,
            undervolt_mv,
            max_perf_pct: read_i32_or(fs.read(join_path(PSTATE, "max_perf_pct").as_str()), 100),
            on_battery: crate::text::opt_str_is(fs.read(AC_ONLINE), "0"),
        }
    }

    fn legion_flag(&self, fs: &Sysfs, node: &str) -> (r: bool)
        ensures
            r == flag_on(legion_read(*fs, node@)),
    {
        is_on(fs.read(legion_path(node).as_str()))
    }

    fn legion_i32(&self, fs: &Sysfs, node: &str) -> (r: i32)
        ensures
            r == i32_or(legion_read(*fs, node@), 0),
    {
        read_i32_or(fs.read(legion_path(node).as_str()), 0)
    }

    /// The slower-moving state.  `refresh_hz` is the panel's current rate,
    /// `gpu_query` what `nvidia-smi` printed for the GPU's name and power
    /// ceiling, and `gpu_pl_max` that ceiling in watts.
    pub fn extras(
        &self,
        fs: &Sysfs,
        refresh_hz: Option<i32>,
        gpu_query: Option<&str>,
        gpu_pl_max: i32,
    ) -> (e: Extras)
        ensures
            e.bat_capacity == i32_or(bat_read(*fs, "capacity"@), 0),
            e.bat_cycles == i32_or(bat_read(*fs, "cycle_count"@), 0),
            e.bat_health == health_of(
                i32_or(bat_read(*fs, "energy_full"@), 0),
                i32_or(bat_read(*fs, "energy_full_design"@), 0),
            ),
            e.bat_voltage_uv == i32_or(bat_read(*fs, "voltage_now"@), 0),
            e.bat_power_uw == i32_or(bat_read(*fs, "power_now"@), 0),
            e.bat_status@ == text_or_empty(bat_read(*fs, "status"@)),
            e.bat_model@ == text_or_empty(bat_read(*fs, "model_name"@)),
            e.conservation == flag_on(legion_read(*fs, "battery_conservation"@)),
            e.rapid_charge == flag_on(legion_read(*fs, "rapidcharge"@)),
            e.fn_lock == flag_on(legion_read(*fs, "fn_lock"@)),
            e.winkey == flag_on(legion_read(*fs, "winkey"@)),
            e.touchpad == flag_on(legion_read(*fs, "touchpad"@)),
            e.flip_to_start == flag_on(legion_read(*fs, "flip_to_start"@)),
            e.overdrive == flag_on(legion_read(*fs, "overdrive"@)),
            e.pl_coupling == flag_on(legion_read(*fs, "cpu_pl_coupling"@)),
            e.kbd_backlight == i32_or(fs.read_spec(KBD_LED@), 0),
            e.kbd_max == i32_or(fs.read_spec(KBD_MAX@), 2),
            e.cpu_temp_limit == i32_or(legion_read(*fs, "cpu_temperature_limit"@), 0),
            e.gpu_temp_limit == i32_or(legion_read(*fs, "gpu_temperature_limit"@), 0),
            e.cross_loading == i32_or(legion_read(*fs, "cpu_cross_loading_powerlimit"@), 0),
            e.ec_tau == i32_or(legion_read(*fs, "cpu_l1_tau"@), 0),
            e.gpu_boost == i32_or(legion_read(*fs, "gpu_oc"@), 0),
            e.gpu_target_offset == i32_or(legion_read(*fs, "gpu_power_target_offset"@), 0),
            e.igpu_mode == i32_or(legion_read(*fs, "igpumode"@), 0),
            e.refresh_hz == (match refresh_hz {
                Some(v) => v,
                None => 0,
            }),
            e.gpu_name@ == (match gpu_query {
                Some(q) => trimmed(first_field(trimmed(q@), ',')),
                None => Seq::empty(),
            }),
            e.gpu_pl_max == (match gpu_query {
                Some(_) => gpu_pl_max,
                None => 0,
            }),
    {
        let full = read_i32_or(fs.read(join_path(BATTERY, "energy_full").as_str()), 0);
        let design = read_i32_or(fs.read(join_path(BATTERY, "energy_full_design").as_str()), 0);
        let bat_health = if design > 0 {
            let h = tdiv_i64(full as i64 * 100, design as i64);
            h as i32
        } else {
            0
        };
        let (gpu_name, pl) = match gpu_query {
            Some(q) => (trim(field_before(trim(q), ',')).to_owned(), gpu_pl_max),
            None => (String::new(), 0),
        };
        Extras {
            bat_capacity: read_i32_or(fs.read(join_path(BATTERY, "capacity").as_str()), 0),
            bat_cycles: read_i32_or(fs.read(join_path(BATTERY, "cycle_count").as_str()), 0),
            bat_health,
            bat_voltage_uv: read_i32_or(fs.read(join_path(BATTERY, "voltage_now").as_str()), 0),
            bat_power_uw: read_i32_or(fs.read(join_path(BATTERY, "power_now").as_str()), 0),
            bat_status: owned_or_empty(fs.read(join_path(BATTERY, "status").as_str())),
            bat_model: owned_or_empty(fs.read(join_path(BATTERY, "model_name").as_str())),
            conservation: self.legion_flag(fs, "battery_conservation"),
            rapid_charge: self.legion_flag(fs, "rapidcharge"),
            kbd_backlight: read_i32_or(fs.read(KBD_LED), 0),
            kbd_max: read_i32_or(fs.read(KBD_MAX), 2),
            fn_lock: self.legion_flag(fs, "fn_lock"),
            winkey: self.legion_flag(fs, "winkey"),
            touchpad: self.legion_flag(fs, "touchpad"),
            flip_to_start: self.legion_flag(fs, "flip_to_start"),
            overdrive: self.legion_flag(fs, "overdrive"),
            refresh_hz: match refresh_hz {
                Some(v) => v,
                None => 0,
            },
            cpu_temp_limit: self.legion_i32(fs, "cpu_temperature_limit"),
            gpu_temp_limit: self.legion_i32(fs, "gpu_temperature_limit"),
            cross_loading: self.legion_i32(fs, "cpu_cross_loading_powerlimit"),
            ec_tau: self.legion_i32(fs, "cpu_l1_tau"),
            pl_coupling: self.legion_flag(fs, "cpu_pl_coupling"),
            gpu_boost: self.legion_i32(fs, "gpu_oc"),
            gpu_target_offset: self.legion_i32(fs, "gpu_power_target_offset"),
            gpu_name,
            gpu_pl_max: pl,
            igpu_mode: self.legion_i32(fs, "igpumode"),
        }
    }

    /// The GPU's configurable TGP and PPAB power limits, 0 where unreadable.
    pub fn gpu_limits(&self, fs: &Sysfs) -> (r: (i32, i32))
        ensures
            r.0 == i32_or(legion_read(*fs, "gpu_ctgp_powerlimit"@), 0),
            r.1 == i32_or(legion_read(*fs, "gpu_ppab_powerlimit"@), 0),
    {
        (self.legion_i32(fs, "gpu_ctgp_powerlimit"), self.legion_i32(fs, "gpu_ppab_powerlimit"))
    }
}


/// `0` or `1` for a switch.
pub open spec fn bit(on: bool) -> int {
    if on { 1 } else { 0 }
}

/// Whether a limit in whole units still fits an `i32` once scaled to
/// micro-units.
pub open spec fn micro_fits(v: int) -> bool {
    i32::MIN <= v * 1_000_000 <= i32::MAX
}

/// Whether `set_power` can take `v`.
pub fn micro_fits_exec(v: i32) -> (r: bool)
    ensures
        r == micro_fits(v as int),
{
    let m = (v as i64) * 1_000_000;
    i32::MIN as i64 <= m && m <= i32::MAX as i64
}

impl Hw {
    /// Power limits: PL1 and PL2 in watts and the PL1 time window in seconds,
    /// written to RAPL in micro-units.  Every failure is reported.
    pub fn set_power(&self, pl1: i32, pl2: i32, tau: i32) -> (r: Vec<Step>)
        requires
            micro_fits(pl1 as int),
            micro_fits(pl2 as int),
            micro_fits(tau as int),
        ensures
            plan_view(r@) == seq![
                reported(join(RAPL@, "constraint_0_power_limit_uw"@), pl1 * 1_000_000),
                reported(join(RAPL@, "constraint_1_power_limit_uw"@), pl2 * 1_000_000),
                reported(join(RAPL@, "constraint_0_time_window_us"@), tau * 1_000_000),
            ],
    {
        let mut r: Vec<Step> = Vec::new();
        r.push(report_write(join_path(RAPL, "constraint_0_power_limit_uw"), pl1 * 1_000_000));
        r.push(report_write(join_path(RAPL, "constraint_1_power_limit_uw"), pl2 * 1_000_000));
        r.push(report_write(join_path(RAPL, "constraint_0_time_window_us"), tau * 1_000_000));
        assert(plan_view(r@) =~= seq![
            reported(join(RAPL@, "constraint_0_power_limit_uw"@), pl1 * 1_000_000),
            reported(join(RAPL@, "constraint_1_power_limit_uw"@), pl2 * 1_000_000),
            reported(join(RAPL@, "constraint_0_time_window_us"@), tau * 1_000_000),
        ]);
        r
    }

    /// The GPU's TGP and PPAB limits in watts.
    pub fn set_gpu(&self, ctgp: i32, ppab: i32) -> (r: Vec<Step>)
        ensures
            plan_view(r@) == seq![
                reported(join(LEGION@, "gpu_ctgp_powerlimit"@), ctgp as int),
                reported(join(LEGION@, "gpu_ppab_powerlimit"@), ppab as int),
            ],
    {
        let mut r: Vec<Step> = Vec::new();
        r.push(report_write(legion_path("gpu_ctgp_powerlimit"), ctgp));
        r.push(report_write(legion_path("gpu_ppab_powerlimit"), ppab));
        assert(plan_view(r@) =~= seq![
            reported(join(LEGION@, "gpu_ctgp_powerlimit"@), ctgp as int),
            reported(join(LEGION@, "gpu_ppab_powerlimit"@), ppab as int),
        ]);
        r
    }

    /// The keyboard backlight level, kept to 0..=2 and written to both LED
    /// nodes so that either reads back the same.  The caller reports the
    /// first failure.
    pub fn set_kbd_backlight(&self, level: i32) -> (r: Vec<Step>)
        ensures
            plan_view(r@) == seq![
                reported(KBD_LED@, crate::curve::clamp(level as int, 0, 2)),
                reported(KBD_LED_1@, crate::curve::clamp(level as int, 0, 2)),
            ],
    {
        let v = if level < 0 {
            0
        } else if level > 2 {
            2
        } else {
            level
        };
        let mut r: Vec<Step> = Vec::new();
        r.push(report_write(String::from_str(KBD_LED), v));
        r.push(report_write(String::from_str(KBD_LED_1), v));
        assert(plan_view(r@) =~= seq![
            reported(KBD_LED@, crate::curve::clamp(level as int, 0, 2)),
            reported(KBD_LED_1@, crate::curve::clamp(level as int, 0, 2)),
        ]);
        r
    }

    /// Conservation mode and rapid charge are mutually exclusive in firmware,
    /// so asking for both is refused outright rather than left to the EC;
    /// otherwise both switches are written.
    pub fn set_charge_mode(&self, conservation: bool, rapid: bool) -> (r: Result<Vec<Step>, String>)
        ensures
            conservation && rapid ==> (r matches Err(e) && e@
                == "conservation mode and rapid charge cannot both be on"@),
            !(conservation && rapid) ==> (r matches Ok(p) && plan_view(p@) == seq![
                reported(join(LEGION@, "battery_conservation"@), bit(conservation)),
                reported(join(LEGION@, "rapidcharge"@), bit(rapid)),
            ]),
    {
        if conservation && rapid {
            return Err(String::from_str("conservation mode and rapid charge cannot both be on"));
        }
        let mut r: Vec<Step> = Vec::new();
        r.push(report_write(legion_path("battery_conservation"), if conservation { 1 } else { 0 }));
        r.push(report_write(legion_path("rapidcharge"), if rapid { 1 } else { 0 }));
        assert(plan_view(r@) =~= seq![
            reported(join(LEGION@, "battery_conservation"@), bit(conservation)),
            reported(join(LEGION@, "rapidcharge"@), bit(rapid)),
        ]);
        Ok(r)
    }

    /// A switch of the embedded controller.
    pub fn set_flag(&self, node: &str, on: bool) -> (r: Step)
        ensures
            r@ == reported(join(LEGION@, node@), bit(on)),
    {
        report_write(legion_path(node), if on { 1 } else { 0 })
    }

    /// A numeric setting of the embedded controller.
    pub fn set_ec(&self, node: &str, value: i32) -> (r: Step)
        ensures
            r@ == reported(join(LEGION@, node@), value as int),
    {
        report_write(legion_path(node), value)
    }

    /// Percentage of maximum CPU performance, kept to 10..=100: the Linux
    /// counterpart of the "maximum processor state" of a Windows power plan.
    pub fn set_max_perf(&self, pct: i32) -> (r: Step)
        ensures
            r@ == reported(join(PSTATE@, "max_perf_pct"@), crate::curve::clamp(pct as int, 10, 100)),
    {
        let v = if pct < 10 {
            10
        } else if pct > 100 {
            100
        } else {
            pct
        };
        report_write(join_path(PSTATE, "max_perf_pct"), v)
    }

    /// Pins the fan to full speed, or releases it.
    pub fn set_fan_fullspeed(&self, on: bool) -> (r: Step)
        ensures
            r@ == reported(join(LEGION@, "fan_fullspeed"@), bit(on)),
    {
        report_write(legion_path("fan_fullspeed"), if on { 1 } else { 0 })
    }

    /// The EC power mode: 1 quiet, 2 balanced, 3 performance, 224 extreme,
    /// 255 custom.
    pub fn set_powermode(&self, mode: i32) -> (r: Step)
        ensures
            r@ == reported(join(LEGION@, "powermode"@), mode as int),
    {
        report_write(legion_path("powermode"), mode)
    }

    /// The mode `restore_stock` returns to: the current one, or custom when
    /// it cannot be read.
    pub open spec fn stock_mode(&self, fs: Sysfs) -> int {
        i32_or(legion_read(fs, "powermode"@), 255)
    }

    /// The mode `restore_stock` passes through: performance, or balanced when
    /// already in performance.
    pub open spec fn bounce_mode(cur: int) -> int {
        if cur == 3 { 2 } else { 3 }
    }

    /// Reloads the firmware's own curve: the EC repopulates its fan table on
    /// every mode change, so switch to another mode, wait 1.8 s, and switch
    /// back.  The first failure ends the plan.
    pub fn restore_stock(&self, fs: &Sysfs) -> (r: Vec<Step>)
        ensures
            plan_view(r@) == seq![
                StepView::Write {
                    path: join(LEGION@, "powermode"@),
                    value: Self::bounce_mode(self.stock_mode(*fs)),
                    on_error: OnErrorView::Stop,
                },
                StepView::Sleep { ms: 1800 },
                StepView::Write {
                    path: join(LEGION@, "powermode"@),
                    value: self.stock_mode(*fs),
                    on_error: OnErrorView::Stop,
                },
            ],
    {
        let pm = legion_path("powermode");
        let cur = read_i32_or(fs.read(pm.as_str()), 255);
        let other = if cur == 3 { 2 } else { 3 };
        let pm2 = pm.clone();
        let mut r: Vec<Step> = Vec::new();
        r.push(Step::Write { path: pm, value: other, on_error: OnError::Stop });
        r.push(Step::Sleep { ms: 1800 });
        r.push(Step::Write { path: pm2, value: cur, on_error: OnError::Stop });
        assert(plan_view(r@) =~= seq![
            StepView::Write {
                path: join(LEGION@, "powermode"@),
                value: Self::bounce_mode(self.stock_mode(*fs)),
                on_error: OnErrorView::Stop,
            },
            StepView::Sleep { ms: 1800 },
            StepView::Write {
                path: join(LEGION@, "powermode"@),
                value: self.stock_mode(*fs),
                on_error: OnErrorView::Stop,
            },
        ]);
        r
    }
}


/// Points are written highest first: with a `legion_hwmon` directory the
/// writes of point `idx` are the three at positions `3 * (n - 1 - idx)`
/// onward, so every write of a higher point comes before every write of a
/// lower one.
pub proof fn lemma_points_highest_first(d: Seq<char>, pts: Seq<(i32, i32)>, max_rpm: int, n: nat, idx: int, j: int)
    requires
        0 <= idx < n,
        0 <= j < 3,
    ensures
        points_desc(Some(d), pts, max_rpm, n).len() == 3 * n,
        points_desc(Some(d), pts, max_rpm, n)[3 * (n - 1 - idx) + j] == point_steps(Some(d), pts, max_rpm, idx)[j],
    decreases n,
{
    let k = (n - 1) as nat;
    if idx < n - 1 {
        lemma_points_highest_first(d, pts, max_rpm, k, idx, j);
    } else {
        lemma_points_len(d, pts, max_rpm, k);
    }
}

proof fn lemma_points_len(d: Seq<char>, pts: Seq<(i32, i32)>, max_rpm: int, n: nat)
    ensures
        points_desc(Some(d), pts, max_rpm, n).len() == 3 * n,
    decreases n,
{
    if n > 0 {
        lemma_points_len(d, pts, max_rpm, (n - 1) as nat);
    }
}

/// Restoring the stock curve passes through a mode other than the one it
/// returns to, so the controller always sees a mode change.
pub proof fn lemma_restore_bounces(cur: int)
    ensures
        Hw::bounce_mode(cur) != cur,
{
}


/// The embedded controller's attributes the readers use.
pub const LEGION_NODES: [&'static str; 19] = [
    "fan_fullspeed", "powermode", "gpu_ctgp_powerlimit", "gpu_ppab_powerlimit",
    "battery_conservation", "rapidcharge", "fn_lock", "winkey", "touchpad", "flip_to_start",
    "overdrive", "cpu_pl_coupling", "cpu_temperature_limit", "gpu_temperature_limit",
    "cpu_cross_loading_powerlimit", "cpu_l1_tau", "gpu_oc", "gpu_power_target_offset", "igpumode",
];

/// The RAPL attributes the readers use.
pub const RAPL_NODES: [&'static str; 3] = [
    "constraint_0_power_limit_uw", "constraint_1_power_limit_uw", "constraint_0_time_window_us",
];

/// The battery attributes the readers use.
pub const BATTERY_NODES: [&'static str; 8] = [
    "capacity", "cycle_count", "energy_full", "energy_full_design", "voltage_now", "power_now",
    "status", "model_name",
];

/// The `legion_hwmon` attributes the readers use besides the curve points.
pub const HWMON_NODES: [&'static str; 4] = ["fan1_max", "temp2_input", "fan1_input", "minifancurve"];

/// Single files the readers use.
pub const OTHER_FILES: [&'static str; 6] = [
    "/sys/devices/system/cpu/intel_pstate/max_perf_pct", PROCHOT_COUNT, AC_ONLINE, KBD_LED, KBD_MAX,
    "/sys/bus/pci/devices/0000:01:00.0/power/runtime_status",
];

pub open spec fn string_views(v: Seq<String>) -> Seq<Seq<char>> {
    v.map_values(|x: String| x@)
}

pub open spec fn joined_all(base: Seq<char>, nodes: Seq<&str>) -> Seq<Seq<char>> {
    nodes.map_values(|n: &str| join(base, n@))
}

fn push_joined(out: &mut Vec<String>, base: &str, nodes: &[&str])
    ensures
        string_views(final(out)@) == string_views(old(out)@) + joined_all(base@, nodes@),
{
    let ghost start = string_views(out@);
    let mut i: usize = 0;
    while i < nodes.len()
        invariant
            i <= nodes@.len(),
            string_views(out@) == start + joined_all(base@, nodes@.take(i as int)),
        decreases nodes@.len() - i,
    {
        let ghost before = string_views(out@);
        out.push(join_path(base, nodes[i]));
        assert(joined_all(base@, nodes@.take(i + 1)) =~= joined_all(base@, nodes@.take(i as int)).push(join(base@, nodes@[i as int]@)));
        assert(string_views(out@) =~= before.push(join(base@, nodes@[i as int]@)));
        i = i + 1;
    }
    assert(nodes@.take(nodes@.len() as int) =~= nodes@);
}

/// The paths of the ten curve points' temperature and duty nodes, in
/// point order, temperature first.
pub open spec fn point_paths(d: Seq<char>, k: nat) -> Seq<Seq<char>>
    decreases k,
{
    if k == 0 {
        Seq::empty()
    } else {
        point_paths(d, (k - 1) as nat) + seq![
            join(d, point_node(k as int, "_temp"@)),
            join(d, point_node(k as int, "_pwm"@)),
        ]
    }
}

impl Hw {
    /// Every file the readers of this library look at, so that a snapshot
    /// of them serves all of them.
    pub open spec fn nodes_spec(&self) -> Seq<Seq<char>> {
        let fixed = joined_all(LEGION@, LEGION_NODES@) + joined_all(RAPL@, RAPL_NODES@)
            + joined_all(BATTERY@, BATTERY_NODES@) + OTHER_FILES@.map_values(|f: &str| f@);
        let core = match self.coretemp {
            Some(c) => seq![join(c@, "temp1_input"@)],
            None => Seq::empty(),
        };
        let hw = match self.legion_hwmon {
            Some(d) => joined_all(d@, HWMON_NODES@) + point_paths(d@, 10),
            None => Seq::empty(),
        };
        fixed + core + hw
    }

    pub fn nodes(&self) -> (r: Vec<String>)
        ensures
            string_views(r@) == self.nodes_spec(),
    {
        let mut out: Vec<String> = Vec::new();
        push_joined(&mut out, LEGION, &LEGION_NODES);
        push_joined(&mut out, RAPL, &RAPL_NODES);
        push_joined(&mut out, BATTERY, &BATTERY_NODES);
        let ghost fixed3 = string_views(out@);
        let mut i: usize = 0;
        while i < OTHER_FILES.len()
            invariant
                i <= 6,
                string_views(out@) == fixed3 + OTHER_FILES@.take(i as int).map_values(|f: &str| f@),
            decreases 6 - i,
        {
            let ghost before = string_views(out@);
            out.push(String::from_str(OTHER_FILES[i]));
            assert(OTHER_FILES@.take(i + 1).map_values(|f: &str| f@)
                =~= OTHER_FILES@.take(i as int).map_values(|f: &str| f@).push(OTHER_FILES@[i as int]@));
            assert(string_views(out@) =~= before.push(OTHER_FILES@[i as int]@));
            i = i + 1;
        }
        assert(OTHER_FILES@.take(6) =~= OTHER_FILES@);
        let ghost fixed = string_views(out@);
        match &self.coretemp {
            Some(c) => {
                out.push(join_path(c.as_str(), "temp1_input"));
            },
            None => {},
        }
        let ghost with_core = string_views(out@);
        match &self.legion_hwmon {
            Some(d) => {
                push_joined(&mut out, d.as_str(), &HWMON_NODES);
                let ghost base = string_views(out@);
                let mut k: usize = 1;
                assert(point_paths(d@, 0) =~= Seq::<Seq<char>>::empty());
                while k <= 10
                    invariant
                        1 <= k <= 11,
                        string_views(out@) == base + point_paths(d@, (k - 1) as nat),
                    decreases 11 - k,
                {
                    let num = i64_to_string(k as i64);
                    let ghost before = string_views(out@);
                    let t = point_node_name(num.as_str(), "_temp");
                    let pw = point_node_name(num.as_str(), "_pwm");
                    out.push(join_path(d.as_str(), t.as_str()));
                    out.push(join_path(d.as_str(), pw.as_str()));
                    assert(string_views(out@) =~= before + seq![
                        join(d@, point_node(k as int, "_temp"@)),
                        join(d@, point_node(k as int, "_pwm"@)),
                    ]);
                    k = k + 1;
                }
                assert(string_views(out@) =~= with_core + (joined_all(d@, HWMON_NODES@) + point_paths(d@, 10)));
            },
            None => {
                assert(string_views(out@) =~= with_core + Seq::<Seq<char>>::empty());
            },
        }
        assert(string_views(out@) =~= self.nodes_spec());
        out
    }
}

} // verus!
