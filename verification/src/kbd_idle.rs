//! The idle keyboard dimmer: its timeout setting and the state machine that
//! turns the backlight off when the session goes idle and back on when it
//! resumes, without fighting the Fn key or the desktop's own dimming.

use vstd::prelude::*;
use vstd::string::*;
use crate::text::{
    i64_to_string, lines, lines_of, parse_i32, parse_int, parse_u64, split_once,
    split_once_spec, str_eq, trim, trimmed, u64_to_string, decimal, nat_digits, views,
};

verus! {

/// The systemd user unit of the dimmer.
pub const UNIT: &'static str = "83sc-kbd-idle";

/// Seconds of inactivity before the backlight goes off, unless configured.
pub const DEFAULT_SECS: i32 = 5;

/// The text after `=` on the first `key=value` line whose key, trimmed, is
/// `timeout`.
pub open spec fn timeout_value(ls: Seq<Seq<char>>) -> Option<Seq<char>>
    decreases ls.len(),
{
    if ls.len() == 0 {
        None
    } else {
        match split_once_spec(ls[0], '=') {
            Some((k, v)) => if trimmed(k) == "timeout"@ {
                Some(v)
            } else {
                timeout_value(ls.drop_first())
            },
            None => timeout_value(ls.drop_first()),
        }
    }
}

fn find_timeout<'a>(text: &'a str) -> (r: Option<&'a str>)
    ensures
        match r {
            Some(v) => timeout_value(lines_of(text@)) == Some(v@),
            None => timeout_value(lines_of(text@)) is None,
        },
{
    let ls = lines(text);
    let mut i: usize = 0;
    assert(views(ls@).skip(0) =~= views(ls@));
    while i < ls.len()
        invariant
            i <= ls@.len(),
            views(ls@) == lines_of(text@),
            timeout_value(views(ls@)) == timeout_value(views(ls@).skip(i as int)),
        decreases ls@.len() - i,
    {
        assert(views(ls@).skip(i as int).drop_first() =~= views(ls@).skip(i + 1));
        assert(views(ls@).skip(i as int)[0] == ls@[i as int]@);
        match split_once(ls[i], '=') {
            Some((k, v)) => {
                proof {
                    reveal_strlit("timeout");
                }
                if str_eq(trim(k), "timeout") {
                    return Some(v);
                }
            },
            None => {},
        }
        i = i + 1;
    }
    None
}

/// The GUI's reading of the dimmer's config file: the `timeout` value, or
/// 5 s when the file is missing, has no such line, or its first such line
/// does not hold a number.
pub open spec fn gui_timeout_spec(text: Option<Seq<char>>) -> int {
    match text {
        None => DEFAULT_SECS as int,
        Some(t) => match timeout_value(lines_of(t)) {
            None => DEFAULT_SECS as int,
            Some(v) => match parse_int(trimmed(v), true, i32::MIN as int, i32::MAX as int) {
                Some(n) => n,
                None => DEFAULT_SECS as int,
            },
        },
    }
}

pub fn timeout_secs(text: Option<&str>) -> (r: i32)
    ensures
        r == gui_timeout_spec(match text {
            Some(t) => Some(t@),
            None => None,
        }),
{
    match text {
        None => DEFAULT_SECS,
        Some(t) => match find_timeout(t) {
            None => DEFAULT_SECS,
            Some(v) => match parse_i32(trim(v)) {
                Some(n) => n,
                None => DEFAULT_SECS,
            },
        },
    }
}

/// The config file the GUI writes: `timeout=N` and a newline.
pub fn config_text(secs: i32) -> (r: String)
    ensures
        r@ == "timeout="@ + decimal(secs as int) + seq!['\n'],
{
    let mut r = String::from_str("timeout=");
    r.append(i64_to_string(secs as i64).as_str());
    r.append("\n");
    proof {
        reveal_strlit("\n");
    }
    assert(r@ =~= "timeout="@ + decimal(secs as int) + seq!['\n']);
    r
}

/// The `systemctl --user` runs that apply the switch, in order; the first
/// failure ends them.  The daemon reads its config only at startup, so a
/// change is a restart.
pub fn unit_commands(on: bool) -> (r: Vec<Vec<&'static str>>)
    ensures
        on ==> r@.len() == 2 && r@[0]@ == seq!["enable", "--now", UNIT] && r@[1]@ == seq!["restart", UNIT],
        !on ==> r@.len() == 1 && r@[0]@ == seq!["disable", "--now", UNIT],
{
    let mut r: Vec<Vec<&'static str>> = Vec::new();
    if on {
        r.push(vec!["enable", "--now", UNIT]);
        r.push(vec!["restart", UNIT]);
    } else {
        r.push(vec!["disable", "--now", UNIT]);
    }
    r
}

/// The daemon's timeout: the value after the first `--timeout` that parses
/// as a number; otherwise the config file's `timeout`; otherwise 5 s.
pub open spec fn arg_timeout(args: Seq<Seq<char>>) -> Option<u64>
    decreases args.len(),
{
    if args.len() == 0 {
        None
    } else if args[0] == "--timeout"@ {
        if args.len() >= 2 {
            match parse_int(args[1], false, 0, u64::MAX as int) {
                Some(v) => Some(v as u64),
                None => arg_timeout(args.skip(2)),
            }
        } else {
            None
        }
    } else {
        arg_timeout(args.drop_first())
    }
}

pub open spec fn daemon_timeout_spec(args: Seq<Seq<char>>, config: Option<Seq<char>>) -> u64 {
    match arg_timeout(args) {
        Some(v) => v,
        None => match config {
            None => 5,
            Some(t) => match timeout_value(lines_of(t)) {
                None => 5,
                Some(v) => match parse_int(trimmed(v), false, 0, u64::MAX as int) {
                    Some(n) => n as u64,
                    None => 5,
                },
            },
        },
    }
}

pub open spec fn string_views(v: Seq<String>) -> Seq<Seq<char>> {
    v.map_values(|x: String| x@)
}

/// The daemon's idle timeout in seconds, from its arguments (without the
/// program name) and its config file.
pub fn daemon_timeout(args: &Vec<String>, config: Option<&str>) -> (r: u64)
    ensures
        r == daemon_timeout_spec(string_views(args@), match config {
            Some(t) => Some(t@),
            None => None,
        }),
{
    let n = args.len();
    let mut i: usize = 0;
    let ghost a = string_views(args@);
    assert(a.skip(0) =~= a);
    proof {
        reveal_strlit("--timeout");
    }
    while i < n
        invariant
            n == args@.len(),
            i <= n,
            a == string_views(args@),
            arg_timeout(a) == arg_timeout(a.skip(i as int)),
        decreases n - i,
    {
        let ghost t = a.skip(i as int);
        assert(t[0] == args@[i as int]@);
        if str_eq(args[i].as_str(), "--timeout") {
            if i + 1 < n {
                assert(t[1] == args@[i + 1]@);
                match parse_u64(args[i + 1].as_str()) {
                    Some(v) => return v,
                    None => {},
                }
                assert(t.skip(2) =~= a.skip(i + 2));
                i = i + 2;
            } else {
                assert(t.len() == 1);
                i = n;
                assert(arg_timeout(a.skip(n as int)) is None);
            }
        } else {
            assert(t.drop_first() =~= a.skip(i + 1));
            i = i + 1;
        }
    }
    assert(a.skip(n as int).len() == 0);
    match config {
        None => 5,
        Some(t) => match find_timeout(t) {
            None => 5,
            Some(v) => match parse_u64(trim(v)) {
                Some(x) => x,
                None => 5,
            },
        },
    }
}

/// The idle timeout in milliseconds as the compositor takes it: the low 32
/// bits.
pub fn timeout_ms(secs: u64) -> (r: u32)
    requires
        secs * 1000 <= u64::MAX,
    ensures
        r == (secs * 1000) as u32,
{
    (secs * 1000) as u32
}


/// The dimmer's state.
///
/// UPower broadcasts every backlight change with its origin, including the
/// dimmer's own writes; `own` lists the values the dimmer has written and
/// not yet seen come back, oldest first.
pub struct Backlight {
    /// The level to restore on resume.
    pub level: i32,
    /// The dimmer has switched the backlight off for idleness.
    pub dimmed: bool,
    pub own: Vec<i32>,
    /// While dimmed, the desktop's own idle dimming wrote 0 as well.
    pub kde_dimmed: bool,
    /// Until this moment (monotonic milliseconds) a write of 0 is taken as the
    /// desktop restoring the 0 it saved, and is undone.
    pub reassert_until: Option<u64>,
}

/// The mathematical content of a `Backlight`.
pub struct BacklightView {
    pub level: i32,
    pub dimmed: bool,
    pub own: Seq<i32>,
    pub kde_dimmed: bool,
    pub reassert_until: Option<u64>,
}

impl View for Backlight {
    type V = BacklightView;

    open spec fn view(&self) -> BacklightView {
        BacklightView {
            level: self.level,
            dimmed: self.dimmed,
            own: self.own@,
            kde_dimmed: self.kde_dimmed,
            reassert_until: self.reassert_until,
        }
    }
}

/// Recording a write of `v` the dimmer is about to make.
pub open spec fn with_own(m: BacklightView, v: i32) -> BacklightView {
    BacklightView { own: m.own.push(v), ..m }
}

/// The session went idle while the backlight was at `cur`: switch it off,
/// remembering `cur`, unless it is already off.
pub open spec fn idle_step(m: BacklightView, cur: i32) -> (BacklightView, Option<i32>) {
    if cur > 0 {
        (with_own(BacklightView { level: cur, dimmed: true, ..m }, 0), Some(0))
    } else {
        (m, None)
    }
}

/// The session resumed at `now`: restore the saved level if the dimmer
/// switched it off.  The desktop's idle dimming saves the level when it
/// dims; when it came after the dimmer it saved 0 and will "restore" 0 on
/// wake, so for the next 2 s one such write is undone.
pub open spec fn resume_step(m: BacklightView, now: u64) -> (BacklightView, Option<i32>) {
    if !m.dimmed {
        (m, None)
    } else {
        let m1 = with_own(BacklightView { dimmed: false, ..m }, m.level);
        if m.kde_dimmed {
            (BacklightView { kde_dimmed: false, reassert_until: Some((now + 2000) as u64), ..m1 }, Some(m.level))
        } else {
            (m1, Some(m.level))
        }
    }
}

/// The backlight changed to `value`, by `source`, at `now`.
pub open spec fn changed_step(m: BacklightView, value: i32, source: Seq<char>, now: u64) -> (BacklightView, Option<i32>) {
    if m.own.len() > 0 && m.own[0] == value {
        // the echo of the dimmer's own write
        (BacklightView { own: m.own.drop_first(), ..m }, None)
    } else if source == "internal"@ {
        // the Fn key: the user's choice wins
        (BacklightView { level: value, dimmed: false, kde_dimmed: false, reassert_until: None, ..m }, None)
    } else if m.dimmed {
        if value == 0 {
            (BacklightView { kde_dimmed: true, ..m }, None)
        } else {
            (BacklightView { dimmed: false, level: value, ..m }, None)
        }
    } else {
        let racing = match m.reassert_until {
            Some(t) => now < t,
            None => false,
        };
        if value == 0 && racing {
            (with_own(BacklightView { reassert_until: None, ..m }, m.level), Some(m.level))
        } else {
            (BacklightView { level: value, ..m }, None)
        }
    }
}

/// The dimmer is stopping: being stopped while dimmed must not leave the
/// keyboard dark with nothing left running to bring it back.
pub open spec fn stop_step(m: BacklightView) -> (BacklightView, Option<i32>) {
    if m.dimmed {
        (with_own(m, m.level), Some(m.level))
    } else {
        (m, None)
    }
}

impl Backlight {
    /// The level to restore is positive whenever the backlight is dimmed.
    pub open spec fn wf(&self) -> bool {
        self.dimmed ==> self.level > 0
    }

    /// A dimmer that has not acted yet, with the backlight at `level`.
    pub fn new(level: i32) -> (b: Backlight)
        ensures
            b@ == (BacklightView { level, dimmed: false, own: Seq::empty(), kde_dimmed: false, reassert_until: None }),
            b.wf(),
    {
        Backlight { level, dimmed: false, own: Vec::new(), kde_dimmed: false, reassert_until: None }
    }

    fn set(&mut self, v: i32) -> (r: i32)
        ensures
            final(self)@ == with_own(old(self)@, v),
            r == v,
    {
        self.own.push(v);
        v
    }

    /// The write of the last recorded value failed: forget it.
    pub fn set_failed(&mut self)
        requires
            old(self).own@.len() > 0,
            old(self).wf(),
        ensures
            final(self)@ == (BacklightView { own: old(self)@.own.drop_last(), ..old(self)@ }),
            final(self).wf(),
    {
        self.own.pop();
    }

    /// Idle, with the backlight currently at `cur`.  Returns the level to
    /// write, if any.
    pub fn on_idle(&mut self, cur: i32) -> (r: Option<i32>)
        requires
            old(self).wf(),
        ensures
            (final(self)@, r) == idle_step(old(self)@, cur),
            final(self).wf(),
    {
        if cur > 0 {
            self.level = cur;
            self.dimmed = true;
            Some(self.set(0))
        } else {
            None
        }
    }

    /// Resume at monotonic time `now` (milliseconds).
    pub fn on_resume(&mut self, now: u64) -> (r: Option<i32>)
        requires
            old(self).wf(),
            now + 2000 <= u64::MAX,
        ensures
            (final(self)@, r) == resume_step(old(self)@, now),
            final(self).wf(),
    {
        if !self.dimmed {
            return None;
        }
        self.dimmed = false;
        let lv = self.level;
        let r = self.set(lv);
        if self.kde_dimmed {
            self.kde_dimmed = false;
            self.reassert_until = Some(now + 2000);
        }
        Some(r)
    }

    /// A change of the backlight to `value` reported by `source`, at
    /// monotonic time `now` (milliseconds).
    pub fn on_changed(&mut self, value: i32, source: &str, now: u64) -> (r: Option<i32>)
        requires
            old(self).wf(),
        ensures
            (final(self)@, r) == changed_step(old(self)@, value, source@, now),
            final(self).wf(),
    {
        if self.own.len() > 0 && self.own[0] == value {
            self.own.remove(0);
            return None;
        }
        proof {
            reveal_strlit("internal");
        }
        if str_eq(source, "internal") {
            self.level = value;
            self.dimmed = false;
            self.kde_dimmed = false;
            self.reassert_until = None;
            return None;
        }
        if self.dimmed {
            if value == 0 {
                self.kde_dimmed = true;
            } else {
                self.dimmed = false;
                self.level = value;
            }
            return None;
        }
        let racing = match self.reassert_until {
            Some(t) => now < t,
            None => false,
        };
        if value == 0 && racing {
            self.reassert_until = None;
            let lv = self.level;
            Some(self.set(lv))
        } else {
            self.level = value;
            None
        }
    }

    /// Stopping.  Returns the level to write, if any.
    pub fn on_stop(&mut self) -> (r: Option<i32>)
        requires
            old(self).wf(),
        ensures
            (final(self)@, r) == stop_step(old(self)@),
            final(self).wf(),
            old(self).dimmed ==> (r matches Some(v) && v > 0),
    {
        if self.dimmed {
            let lv = self.level;
            Some(self.set(lv))
        } else {
            None
        }
    }
}

/// Well-formedness of a view: the level to restore is positive while
/// dimmed.
pub open spec fn view_wf(m: BacklightView) -> bool {
    m.dimmed ==> m.level > 0
}

/// Every event keeps the saved level positive while the backlight is
/// dimmed, so the level restored on resume or stop is never "off".
pub proof fn lemma_dimmed_level_positive(m: BacklightView, cur: i32, value: i32, source: Seq<char>, now: u64)
    requires
        view_wf(m),
        now + 2000 <= u64::MAX,
    ensures
        view_wf(idle_step(m, cur).0),
        view_wf(resume_step(m, now).0),
        view_wf(changed_step(m, value, source, now).0),
        view_wf(stop_step(m).0),
        m.dimmed ==> (resume_step(m, now).1 matches Some(v) && v > 0),
        m.dimmed ==> (stop_step(m).1 matches Some(v) && v > 0),
{
}

/// Idling and then resuming brings the backlight back to the level it had:
/// the dimmer writes 0, then the previous level.
pub proof fn lemma_idle_then_resume(m: BacklightView, cur: i32, now: u64)
    requires
        !m.dimmed,
        cur > 0,
        now + 2000 <= u64::MAX,
    ensures
        idle_step(m, cur).1 == Some(0i32),
        resume_step(idle_step(m, cur).0, now).1 == Some(cur),
        resume_step(idle_step(m, cur).0, now).0.level == cur,
        !resume_step(idle_step(m, cur).0, now).0.dimmed,
{
}

/// The echo of the dimmer's own write only clears it from the pending list.
pub proof fn lemma_own_echo(m: BacklightView, source: Seq<char>, now: u64)
    requires
        m.own.len() > 0,
    ensures
        changed_step(m, m.own[0], source, now) == (BacklightView { own: m.own.drop_first(), ..m }, None::<i32>),
{
}

/// A change from the Fn key that is not the echo of the dimmer's own write
/// sets the level to restore and ends any dimming, writing nothing.
pub proof fn lemma_fn_key_wins(m: BacklightView, value: i32, now: u64)
    requires
        !(m.own.len() > 0 && m.own[0] == value),
    ensures
        changed_step(m, value, "internal"@, now).1 is None,
        changed_step(m, value, "internal"@, now).0.level == value,
        !changed_step(m, value, "internal"@, now).0.dimmed,
        changed_step(m, value, "internal"@, now).0.own == m.own,
{
}

/// When the desktop dimmed too while the dimmer had the backlight off, a 0
/// it writes within 2 s of resume is answered by writing the saved level
/// back, once.
pub proof fn lemma_desktop_race(m: BacklightView, now: u64, t: u64, source: Seq<char>)
    requires
        m.dimmed,
        m.kde_dimmed,
        now + 2000 <= u64::MAX,
        now <= t < now + 2000,
        source != "internal"@,
        !(m.own.len() > 0 && m.own[0] == 0),
        m.level != 0,
    ensures
        ({
            let m1 = resume_step(m, now).0;
            &&& changed_step(m1, 0, source, t).1 == Some(m.level)
            &&& changed_step(m1, 0, source, t).0.reassert_until is None
        }),
{
    let m1 = resume_step(m, now).0;
    assert(m1.own == m.own.push(m.level));
    if m.own.len() == 0 {
        assert(m1.own[0] == m.level);
    } else {
        assert(m1.own[0] == m.own[0]);
    }
}


/// While the backlight is dimmed, anyone but the Fn key turning it on to a
/// level other than the dimmer's own pending write ends the dimming: that
/// level becomes the one to keep, nothing is written, and neither a later
/// resume nor stopping the dimmer overwrites it.
pub proof fn lemma_external_light_ends_dimming(m: BacklightView, value: i32, source: Seq<char>, now: u64, later: u64)
    requires
        m.dimmed,
        value != 0,
        source != "internal"@,
        !(m.own.len() > 0 && m.own[0] == value),
    ensures
        !changed_step(m, value, source, now).0.dimmed,
        changed_step(m, value, source, now).0.level == value,
        changed_step(m, value, source, now).1 is None,
        changed_step(m, value, source, now).0.own == m.own,
        resume_step(changed_step(m, value, source, now).0, later).1 is None,
        resume_step(changed_step(m, value, source, now).0, later).0.level == value,
        stop_step(changed_step(m, value, source, now).0).1 is None,
{
}

/// While the backlight is not dimmed, a change that is not the dimmer's own
/// echo and not the desktop's stale 0 right after a resume is taken as the
/// user's level: it is kept, nothing is written, and idling later saves it.
pub proof fn lemma_undimmed_change_tracked(m: BacklightView, value: i32, source: Seq<char>, now: u64)
    requires
        !m.dimmed,
        !(m.own.len() > 0 && m.own[0] == value),
        !(value == 0 && source != "internal"@ && (m.reassert_until matches Some(t) && now < t)),
    ensures
        changed_step(m, value, source, now).1 is None,
        changed_step(m, value, source, now).0.level == value,
        !changed_step(m, value, source, now).0.dimmed,
        changed_step(m, value, source, now).0.own == m.own,
        value > 0 ==> idle_step(changed_step(m, value, source, now).0, value).0.level == value,
{
}

/// The desktop switching the backlight off while the dimmer already has it
/// off changes nothing but the note that the desktop dimmed too: the saved
/// level stays and a resume writes it back.
pub proof fn lemma_desktop_dims_too(m: BacklightView, source: Seq<char>, now: u64, later: u64)
    requires
        m.dimmed,
        source != "internal"@,
        !(m.own.len() > 0 && m.own[0] == 0),
        later + 2000 <= u64::MAX,
    ensures
        changed_step(m, 0, source, now).1 is None,
        changed_step(m, 0, source, now).0.dimmed,
        changed_step(m, 0, source, now).0.kde_dimmed,
        changed_step(m, 0, source, now).0.level == m.level,
        resume_step(changed_step(m, 0, source, now).0, later).1 == Some(m.level),
{
}

} // verus!
