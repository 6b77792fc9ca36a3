//! The panel's display modes as the compositor reports them, and the
//! choice of refresh rate.  The refresh rate is a compositor setting rather
//! than a firmware one, so it goes through kscreen-doctor in the user's own
//! session.

use vstd::prelude::*;
use crate::sysfs::{last_line_or, last_line_of, result_view};
use crate::text::{decimal, i64_to_string, str_eq};

verus! {

/// One display mode.  The refresh rate is already rounded to whole hertz.
pub struct Mode {
    pub id: Option<String>,
    pub width: Option<i64>,
    pub height: Option<i64>,
    pub refresh_hz: Option<i32>,
}

/// One output of the compositor.  `enabled` is the `enabled` field when it
/// is a boolean.
pub struct Output {
    pub name: Option<String>,
    pub enabled: Option<bool>,
    pub current_mode_id: Option<String>,
    pub modes: Option<Vec<Mode>>,
}

/// What `kscreen-doctor -j` describes: the outputs, when it lists them.
pub struct Screen {
    pub outputs: Option<Vec<Output>>,
}

/// Index of the first enabled output.
pub open spec fn first_enabled(outs: Seq<Output>) -> Option<int>
    decreases outs.len(),
{
    if outs.len() == 0 {
        None
    } else if outs[0].enabled == Some(true) {
        Some(0)
    } else {
        match first_enabled(outs.drop_first()) {
            Some(k) => Some(k + 1),
            None => None,
        }
    }
}

/// The panel: the first enabled output.
pub open spec fn panel_spec(s: Screen) -> Option<Output> {
    match s.outputs {
        Some(outs) => match first_enabled(outs@) {
            Some(k) => Some(outs@[k]),
            None => None,
        },
        None => None,
    }
}

/// The enabled output that is the panel.
pub fn panel(s: &Screen) -> (r: Option<&Output>)
    ensures
        match r {
            Some(o) => panel_spec(*s) == Some(*o),
            None => panel_spec(*s) is None,
        },
{
    match &s.outputs {
        None => None,
        Some(outs) => {
            let n = outs.len();
            let mut i: usize = 0;
            assert(outs@.skip(0) =~= outs@);
            while i < n
                invariant
                    n == outs@.len(),
                    i <= n,
                    panel_spec(*s) == (match first_enabled(outs@) {
                        Some(k) => Some(outs@[k]),
                        None => None::<Output>,
                    }),
                    first_enabled(outs@) == (match first_enabled(outs@.skip(i as int)) {
                        Some(k) => Some(k + i),
                        None => None::<int>,
                    }),
                decreases n - i,
            {
                assert(outs@.skip(i as int).drop_first() =~= outs@.skip(i + 1));
                assert(outs@.skip(i as int)[0] == outs@[i as int]);
                if outs[i].enabled == Some(true) {
                    return Some(&outs[i]);
                }
                i = i + 1;
            }
            None
        },
    }
}

pub open spec fn id_is(m: Mode, id: Seq<char>) -> bool {
    match m.id {
        Some(s) => s@ == id,
        None => false,
    }
}

/// Index of the first mode whose id is `id`.
pub open spec fn mode_with_id(modes: Seq<Mode>, id: Seq<char>) -> Option<int>
    decreases modes.len(),
{
    if modes.len() == 0 {
        None
    } else if id_is(modes[0], id) {
        Some(0)
    } else {
        match mode_with_id(modes.drop_first(), id) {
            Some(k) => Some(k + 1),
            None => None,
        }
    }
}

fn find_mode(modes: &Vec<Mode>, id: &str) -> (r: Option<usize>)
    ensures
        match r {
            Some(k) => mode_with_id(modes@, id@) == Some(k as int) && k < modes@.len(),
            None => mode_with_id(modes@, id@) is None,
        },
{
    let n = modes.len();
    let mut i: usize = 0;
    assert(modes@.skip(0) =~= modes@);
    while i < n
        invariant
            n == modes@.len(),
            i <= n,
            mode_with_id(modes@, id@) == (match mode_with_id(modes@.skip(i as int), id@) {
                Some(k) => Some(k + i),
                None => None::<int>,
            }),
        decreases n - i,
    {
        assert(modes@.skip(i as int).drop_first() =~= modes@.skip(i + 1));
        assert(modes@.skip(i as int)[0] == modes@[i as int]);
        let hit = match &modes[i].id {
            Some(s) => str_eq(s.as_str(), id),
            None => false,
        };
        if hit {
            return Some(i);
        }
        i = i + 1;
    }
    None
}

/// The id of the mode the panel runs now, `""` when it is not given.
pub open spec fn current_id(o: Output) -> Seq<char> {
    match o.current_mode_id {
        Some(c) => c@,
        None => Seq::empty(),
    }
}

/// The panel's resolution: that of the current mode, or no width and no
/// height when the current mode is not listed.
pub open spec fn current_size(modes: Seq<Mode>, cur: Seq<char>) -> (Option<i64>, Option<i64>) {
    match mode_with_id(modes, cur) {
        Some(k) => (modes[k].width, modes[k].height),
        None => (None, None),
    }
}

pub open spec fn same_size(m: Mode, size: (Option<i64>, Option<i64>)) -> bool {
    m.width == size.0 && m.height == size.1
}

/// The panel's current refresh rate.
pub open spec fn current_refresh_spec(s: Option<Screen>) -> Option<i32> {
    match s {
        None => None,
        Some(s) => match panel_spec(s) {
            None => None,
            Some(o) => match (o.current_mode_id, o.modes) {
                (Some(c), Some(ms)) => match mode_with_id(ms@, c@) {
                    Some(k) => ms@[k].refresh_hz,
                    None => None,
                },
                _ => None,
            },
        },
    }
}

pub open spec fn screen_opt(s: Option<&Screen>) -> Option<Screen> {
    match s {
        Some(x) => Some(*x),
        None => None,
    }
}

/// The refresh rate the panel runs at now.
pub fn current_refresh(s: Option<&Screen>) -> (r: Option<i32>)
    ensures
        r == current_refresh_spec(screen_opt(s)),
{
    let s = match s {
        Some(s) => s,
        None => return None,
    };
    let out = match panel(s) {
        Some(o) => o,
        None => return None,
    };
    match (&out.current_mode_id, &out.modes) {
        (Some(c), Some(ms)) => match find_mode(ms, c.as_str()) {
            Some(k) => ms[k].refresh_hz,
            None => None,
        },
        _ => None,
    }
}

/// The rates offered at the panel's current resolution.
pub open spec fn offered(modes: Seq<Mode>, size: (Option<i64>, Option<i64>), hz: i32) -> bool {
    exists|j: int| 0 <= j < modes.len() && same_size(#[trigger] modes[j], size) && modes[j].refresh_hz == Some(hz)
}

pub open spec fn strictly_descending(v: Seq<i32>) -> bool {
    forall|a: int, b: int| 0 <= a < b < v.len() ==> v[a] > v[b]
}

/// The rates of `refresh_rates`: none without a panel or a mode list;
/// otherwise each rate offered at the panel's current resolution once,
/// highest first.  Switching resolution as a side effect of changing the
/// refresh rate would be a surprise, so other resolutions are left out.
pub open spec fn rates_ok(s: Option<Screen>, r: Seq<i32>) -> bool {
    match s {
        None => r.len() == 0,
        Some(s) => match panel_spec(s) {
            None => r.len() == 0,
            Some(o) => match o.modes {
                None => r.len() == 0,
                Some(ms) => {
                    let size = current_size(ms@, current_id(o));
                    &&& strictly_descending(r)
                    &&& forall|hz: i32| #[trigger] r.to_set().contains(hz) <==> offered(ms@, size, hz)
                },
            },
        },
    }
}

/// Inserts `hz` into a strictly descending list, unless it is there.
fn insert_desc(v: &mut Vec<i32>, hz: i32)
    requires
        strictly_descending(old(v)@),
    ensures
        strictly_descending(final(v)@),
        final(v)@.to_set() == old(v)@.to_set().insert(hz),
{
    let n = v.len();
    let mut i: usize = 0;
    while i < n && v[i] > hz
        invariant
            n == v@.len(),
            i <= n,
            forall|k: int| 0 <= k < i ==> v@[k] > hz,
        decreases n - i,
    {
        i = i + 1;
    }
    let ghost before = v@;
    if i < n && v[i] == hz {
        assert(v@[i as int] == hz);
        assert(v@.to_set() =~= before.to_set().insert(hz));
    } else {
        v.insert(i, hz);
        assert(v@ =~= before.take(i as int).push(hz) + before.skip(i as int));
        assert forall|x: i32| v@.contains(x) <==> (before.contains(x) || x == hz) by {
            if v@.contains(x) {
                let k = choose|k: int| 0 <= k < v@.len() && v@[k] == x;
                if k < i {
                    assert(before[k] == x);
                } else if k > i {
                    assert(before[k - 1] == x);
                }
            }
            if before.contains(x) {
                let k = choose|k: int| 0 <= k < before.len() && before[k] == x;
                if k < i {
                    assert(v@[k] == x);
                } else {
                    assert(v@[k + 1] == x);
                }
            }
            if x == hz {
                assert(v@[i as int] == x);
            }
        }
        assert forall|x: i32| v@.to_set().contains(x) == before.to_set().insert(hz).contains(x) by {
            assert(v@.contains(x) <==> (before.contains(x) || x == hz));
        }
        assert(v@.to_set() =~= before.to_set().insert(hz));
    }
}

/// Rates offered at the resolution the panel is running now, highest first.
pub fn refresh_rates(s: Option<&Screen>) -> (r: Vec<i32>)
    ensures
        rates_ok(screen_opt(s), r@),
{
    let mut out: Vec<i32> = Vec::new();
    let s = match s {
        Some(s) => s,
        None => return out,
    };
    let o = match panel(s) {
        Some(o) => o,
        None => return out,
    };
    let cur: &str = match &o.current_mode_id {
        Some(c) => c.as_str(),
        None => "",
    };
    proof {
        reveal_strlit("");
        assert(""@ =~= Seq::<char>::empty());
    }
    assert(cur@ == current_id(*o));
    let modes = match &o.modes {
        Some(m) => m,
        None => return out,
    };
    let (w, h) = match find_mode(modes, cur) {
        Some(k) => (modes[k].width, modes[k].height),
        None => (None, None),
    };
    let ghost size = current_size(modes@, cur@);
    assert((w, h) == size);
    let n = modes.len();
    let mut i: usize = 0;
    while i < n
        invariant
            n == modes@.len(),
            i <= n,
            size == (w, h),
            strictly_descending(out@),
            forall|hz: i32| #[trigger] out@.to_set().contains(hz) <==> offered(modes@.take(i as int), size, hz),
        decreases n - i,
    {
        let m = &modes[i];
        let ghost prev = out@;
        if m.width == w && m.height == h {
            match m.refresh_hz {
                Some(hz) => insert_desc(&mut out, hz),
                None => {},
            }
        }
        assert forall|hz: i32| #[trigger] out@.to_set().contains(hz) <==> offered(modes@.take(i + 1), size, hz) by {
            let t = modes@.take(i + 1);
            if offered(t, size, hz) {
                let j = choose|j: int| 0 <= j < t.len() && same_size(#[trigger] t[j], size) && t[j].refresh_hz == Some(hz);
                if j < i {
                    assert(modes@.take(i as int)[j] == t[j]);
                    assert(offered(modes@.take(i as int), size, hz));
                }
            }
            if offered(modes@.take(i as int), size, hz) {
                let j = choose|j: int| 0 <= j < i && same_size(#[trigger] modes@.take(i as int)[j], size)
                    && modes@.take(i as int)[j].refresh_hz == Some(hz);
                assert(t[j] == modes@.take(i as int)[j]);
            }
            if same_size(modes@[i as int], size) && modes@[i as int].refresh_hz == Some(hz) {
                assert(t[i as int] == modes@[i as int]);
            }
        }
        i = i + 1;
    }
    assert(modes@.take(n as int) =~= modes@);
    out
}

/// The `kscreen-doctor` argument that switches the panel to `hz` at its
/// current resolution, or why there is none.
pub open spec fn refresh_switch_spec(s: Option<Screen>, hz: i32) -> Result<Seq<char>, Seq<char>> {
    match s {
        None => Err("kscreen-doctor is not available"@),
        Some(s) => match panel_spec(s) {
            None => Err("no enabled display found"@),
            Some(o) => match o.name {
                None => Err("display has no name"@),
                Some(name) => match o.modes {
                    None => Err("display reports no modes"@),
                    Some(ms) => {
                        let size = current_size(ms@, current_id(o));
                        match mode_with_size_rate(ms@, size, hz) {
                            Some(k) => match ms@[k].id {
                                Some(id) => Ok("output."@ + name@ + ".mode."@ + id@),
                                None => Err(no_mode_message(hz)),
                            },
                            None => Err(no_mode_message(hz)),
                        }
                    },
                },
            },
        },
    }
}

pub open spec fn no_mode_message(hz: i32) -> Seq<char> {
    "the panel has no "@ + decimal(hz as int) + " Hz mode at this resolution"@
}

/// Index of the first mode of the given size at `hz`.
pub open spec fn mode_with_size_rate(modes: Seq<Mode>, size: (Option<i64>, Option<i64>), hz: i32) -> Option<int>
    decreases modes.len(),
{
    if modes.len() == 0 {
        None
    } else if same_size(modes[0], size) && modes[0].refresh_hz == Some(hz) {
        Some(0)
    } else {
        match mode_with_size_rate(modes.drop_first(), size, hz) {
            Some(k) => Some(k + 1),
            None => None,
        }
    }
}

fn no_mode(hz: i32) -> (r: String)
    ensures
        r@ == no_mode_message(hz),
{
    let mut m = String::from_str("the panel has no ");
    m.append(i64_to_string(hz as i64).as_str());
    m.append(" Hz mode at this resolution");
    m
}

pub open spec fn string_result(r: Result<String, String>) -> Result<Seq<char>, Seq<char>> {
    match r {
        Ok(s) => Ok(s@),
        Err(e) => Err(e@),
    }
}

/// The argument to hand `kscreen-doctor` to put the panel at `hz`.
pub fn refresh_switch(s: Option<&Screen>, hz: i32) -> (r: Result<String, String>)
    ensures
        string_result(r) == refresh_switch_spec(screen_opt(s), hz),
{
    let scr = match s {
        Some(x) => x,
        None => return Err(String::from_str("kscreen-doctor is not available")),
    };
    let o = match panel(scr) {
        Some(o) => o,
        None => return Err(String::from_str("no enabled display found")),
    };
    let name = match &o.name {
        Some(n) => n,
        None => return Err(String::from_str("display has no name")),
    };
    let cur: &str = match &o.current_mode_id {
        Some(c) => c.as_str(),
        None => "",
    };
    proof {
        reveal_strlit("");
        assert(""@ =~= Seq::<char>::empty());
    }
    assert(cur@ == current_id(*o));
    let modes = match &o.modes {
        Some(m) => m,
        None => return Err(String::from_str("display reports no modes")),
    };
    let (w, h) = match find_mode(modes, cur) {
        Some(k) => (modes[k].width, modes[k].height),
        None => (None, None),
    };
    let ghost size = current_size(modes@, cur@);
    assert((w, h) == size);
    let n = modes.len();
    let mut i: usize = 0;
    assert(modes@.skip(0) =~= modes@);
    while i < n
        invariant
            n == modes@.len(),
            i <= n,
            size == (w, h),
            screen_opt(s) == Some(*scr),
            panel_spec(*scr) == Some(*o),
            o.name == Some(*name),
            o.modes == Some(*modes),
            size == current_size(modes@, current_id(*o)),
            mode_with_size_rate(modes@, size, hz) == (match mode_with_size_rate(modes@.skip(i as int), size, hz) {
                Some(k) => Some(k + i),
                None => None::<int>,
            }),
        decreases n - i,
    {
        assert(modes@.skip(i as int).drop_first() =~= modes@.skip(i + 1));
        assert(modes@.skip(i as int)[0] == modes@[i as int]);
        let m = &modes[i];
        if m.width == w && m.height == h && m.refresh_hz == Some(hz) {
            return match &m.id {
                Some(id) => {
                    let mut a = String::from_str("output.");
                    a.append(name.as_str());
                    a.append(".mode.");
                    a.append(id.as_str());
                    Ok(a)
                },
                None => Err(no_mode(hz)),
            };
        }
        i = i + 1;
    }
    Err(no_mode(hz))
}

/// How a `kscreen-doctor` run ends: on failure, the last line of its error
/// output, or a generic message.
pub fn refresh_outcome(success: bool, stderr: &str) -> (r: Result<(), String>)
    ensures
        result_view(r) == (if success {
            Ok(())
        } else {
            Err(last_line_or(stderr@, "refresh rate change failed"@))
        }),
{
    if success {
        Ok(())
    } else {
        Err(last_line_of(stderr, "refresh rate change failed"))
    }
}

} // verus!
