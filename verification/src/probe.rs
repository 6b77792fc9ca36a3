//! Making sense of what the system tools and the sysfs directory listing
//! report: which hwmon directory belongs to a driver, which processes hold
//! the discrete GPU, the undervolt offset, the desktop power plan.

use vstd::prelude::*;
use vstd::string::*;
use crate::hw::Hw;
use crate::sysfs::Sysfs;
use crate::text::{
    after_last, after_last_char, field_before, first_field, has_prefix, lines, lines_of,
    split_once, split_once_spec, str_eq, strip_prefix, trim, trim_end_matches,
    trim_end_matching, trimmed, views,
};

verus! {

/// One directory under `/sys/class/hwmon`.
pub struct HwmonEntry {
    /// The directory's file name, as bytes: what the listing is sorted by.
    pub key: Vec<u8>,
    /// The directory's full path.
    pub path: String,
    /// What its `name` file holds, or `None` when the path is not UTF-8 or
    /// the file cannot be read.
    pub name: Option<String>,
}

/// Byte-wise lexicographic order, as `OsStr` compares file names.
pub open spec fn lex_lt(a: Seq<u8>, b: Seq<u8>) -> bool
    decreases a.len(),
{
    if a.len() == 0 {
        b.len() > 0
    } else if b.len() == 0 {
        false
    } else if a[0] < b[0] {
        true
    } else if a[0] > b[0] {
        false
    } else {
        lex_lt(a.drop_first(), b.drop_first())
    }
}

proof fn lemma_lex_trichotomy(a: Seq<u8>, b: Seq<u8>)
    ensures
        lex_lt(a, b) || a == b || lex_lt(b, a),
        !(lex_lt(a, b) && lex_lt(b, a)),
        !lex_lt(a, a),
    decreases a.len(),
{
    if a.len() > 0 && b.len() > 0 {
        lemma_lex_trichotomy(a.drop_first(), b.drop_first());
        if a[0] == b[0] && a.drop_first() == b.drop_first() {
            assert(a =~= seq![a[0]] + a.drop_first());
            assert(b =~= seq![b[0]] + b.drop_first());
        }
    } else if a.len() > 0 {
        lemma_lex_trichotomy(a.drop_first(), a.drop_first());
    } else if b.len() == 0 {
        assert(a =~= b);
    }
}

proof fn lemma_lex_transitive(a: Seq<u8>, b: Seq<u8>, c: Seq<u8>)
    requires
        lex_lt(a, b),
        lex_lt(b, c),
    ensures
        lex_lt(a, c),
    decreases a.len(),
{
    if a.len() > 0 && b.len() > 0 && c.len() > 0 {
        if a[0] == b[0] && b[0] == c[0] {
            lemma_lex_transitive(a.drop_first(), b.drop_first(), c.drop_first());
        }
    }
}

/// A directory where the search ends: its name is unreadable (the search
/// gives up) or it is the driver sought.
pub open spec fn stops(e: HwmonEntry, target: Seq<char>) -> bool {
    match e.name {
        None => true,
        Some(n) => trimmed(n@) == target,
    }
}

/// Entry `i` comes before entry `j` once the listing is sorted (stably) by
/// file name.
pub open spec fn sorted_before(es: Seq<HwmonEntry>, i: int, j: int) -> bool {
    lex_lt(es[i].key@, es[j].key@) || (es[i].key@ == es[j].key@ && i < j)
}

/// Entry `i` is the first, in sorted order, where the search ends.
pub open spec fn first_stop(es: Seq<HwmonEntry>, target: Seq<char>, i: int) -> bool {
    &&& 0 <= i < es.len()
    &&& stops(es[i], target)
    &&& forall|j: int| 0 <= j < es.len() && j != i && stops(#[trigger] es[j], target) ==> sorted_before(es, i, j)
}

/// The hwmon directory of a driver, resolved by name: the hwmonN index is
/// allocation ordered and shifts between boots.  The directories are
/// searched in file-name order; the search gives up at the first whose name
/// cannot be read.
pub fn hwmon_pick(es: &Vec<HwmonEntry>, target: &str) -> (r: Option<String>)
    ensures
        match r {
            Some(p) => exists|i: int| first_stop(es@, target@, i) && (#[trigger] es@[i]).name is Some
                && p@ == es@[i].path@,
            None => (forall|i: int| 0 <= i < es@.len() ==> !stops(#[trigger] es@[i], target@))
                || exists|i: int| first_stop(es@, target@, i) && (#[trigger] es@[i]).name is None,
        },
{
    let n = es.len();
    let mut best: Option<usize> = None;
    let mut i: usize = 0;
    while i < n
        invariant
            n == es@.len(),
            i <= n,
            match best {
                Some(b) => b < i && stops(es@[b as int], target@) && forall|j: int|
                    0 <= j < i && j != b && stops(#[trigger] es@[j], target@) ==> sorted_before(es@, b as int, j),
                None => forall|j: int| 0 <= j < i ==> !stops(#[trigger] es@[j], target@),
            },
        decreases n - i,
    {
        let s = match &es[i].name {
            None => true,
            Some(nm) => str_eq(trim(nm.as_str()), target),
        };
        if s {
            match best {
                None => {
                    best = Some(i);
                },
                Some(b) => {
                    if key_lt(&es[i].key, &es[b].key) {
                        proof {
                            assert forall|j: int| 0 <= j < i + 1 && j != i && stops(#[trigger] es@[j], target@)
                                implies sorted_before(es@, i as int, j) by {
                                if j != b {
                                    assert(sorted_before(es@, b as int, j));
                                    if lex_lt(es@[b as int].key@, es@[j].key@) {
                                        lemma_lex_transitive(es@[i as int].key@, es@[b as int].key@, es@[j].key@);
                                    }
                                }
                            }
                        }
                        best = Some(i);
                    } else {
                        proof {
                            lemma_lex_trichotomy(es@[i as int].key@, es@[b as int].key@);
                        }
                    }
                },
            }
        }
        i = i + 1;
    }
    match best {
        None => None,
        Some(b) => {
            assert(first_stop(es@, target@, b as int));
            match &es[b].name {
                Some(_) => Some(es[b].path.clone()),
                None => None,
            }
        },
    }
}

fn key_lt(a: &Vec<u8>, b: &Vec<u8>) -> (r: bool)
    ensures
        r == lex_lt(a@, b@),
{
    let mut i: usize = 0;
    assert(a@.skip(0) =~= a@);
    assert(b@.skip(0) =~= b@);
    while i < a.len() && i < b.len() && a[i] == b[i]
        invariant
            i <= a@.len(),
            i <= b@.len(),
            lex_lt(a@, b@) == lex_lt(a@.skip(i as int), b@.skip(i as int)),
        decreases a@.len() - i,
    {
        assert(a@.skip(i as int).drop_first() =~= a@.skip(i + 1));
        assert(b@.skip(i as int).drop_first() =~= b@.skip(i + 1));
        i = i + 1;
    }
    if i == a.len() {
        i < b.len()
    } else if i == b.len() {
        false
    } else {
        assert(a@.skip(i as int)[0] == a@[i as int]);
        assert(b@.skip(i as int)[0] == b@[i as int]);
        a[i] < b[i]
    }
}

impl Hw {
    /// The driver directories found in a listing of `/sys/class/hwmon` (an
    /// empty listing when the directory cannot be read).
    pub fn new(es: &Vec<HwmonEntry>) -> (hw: Hw)
        ensures
            match hw.legion_hwmon {
                Some(p) => exists|i: int| first_stop(es@, "legion_hwmon"@, i)
                    && (#[trigger] es@[i]).name is Some && p@ == es@[i].path@,
                None => (forall|i: int| 0 <= i < es@.len() ==> !stops(#[trigger] es@[i], "legion_hwmon"@))
                    || exists|i: int| first_stop(es@, "legion_hwmon"@, i) && (#[trigger] es@[i]).name is None,
            },
            match hw.coretemp {
                Some(p) => exists|i: int| first_stop(es@, "coretemp"@, i)
                    && (#[trigger] es@[i]).name is Some && p@ == es@[i].path@,
                None => (forall|i: int| 0 <= i < es@.len() ==> !stops(#[trigger] es@[i], "coretemp"@))
                    || exists|i: int| first_stop(es@, "coretemp"@, i) && (#[trigger] es@[i]).name is None,
            },
    {
        Hw { legion_hwmon: hwmon_pick(es, "legion_hwmon"), coretemp: hwmon_pick(es, "coretemp") }
    }
}


/// The views of a vector of strings.
pub open spec fn string_views(v: Seq<String>) -> Seq<Seq<char>> {
    v.map_values(|x: String| x@)
}

/// What `s.split(c)` yields second: the text between the first and the
/// second `c`, if there is a first.
pub open spec fn second_field(s: Seq<char>, c: char) -> Option<Seq<char>> {
    match split_once_spec(s, c) {
        Some((_, rest)) => Some(first_field(rest, c)),
        None => None,
    }
}

fn field_after<'a>(s: &'a str, c: char) -> (r: Option<&'a str>)
    ensures
        match r {
            Some(f) => second_field(s@, c) == Some(f@),
            None => second_field(s@, c) is None,
        },
{
    match split_once(s, c) {
        Some((_, rest)) => Some(field_before(rest, c)),
        None => None,
    }
}

/// One process holding the GPU, from a `process_name,used_memory` line: the
/// program's file name and its memory, as `name (N MiB)`.
pub open spec fn client_label(l: Seq<char>) -> Seq<char> {
    let name = after_last(trimmed(first_field(l, ',')), '/');
    let mem = match second_field(l, ',') {
        Some(m) => trimmed(m),
        None => Seq::empty(),
    };
    name + " ("@ + mem + " MiB)"@
}

/// The labels of the lines that are not blank, in order.
pub open spec fn client_labels(ls: Seq<Seq<char>>) -> Seq<Seq<char>>
    decreases ls.len(),
{
    if ls.len() == 0 {
        Seq::empty()
    } else {
        let rest = client_labels(ls.drop_last());
        if trimmed(ls.last()).len() > 0 {
            rest.push(client_label(ls.last()))
        } else {
            rest
        }
    }
}

pub const GPU_RUNTIME_STATUS: &'static str = "/sys/bus/pci/devices/0000:01:00.0/power/runtime_status";

/// The processes holding the discrete GPU awake.  Graphics clients do not
/// show up in the compute-apps query, so with no client listed, the card's
/// runtime power state says whether anything is holding it up.
pub open spec fn gpu_clients_spec(out: Option<Seq<char>>, status: Option<Seq<char>>) -> Seq<Seq<char>> {
    match out {
        None => Seq::empty(),
        Some(o) => {
            let v = client_labels(lines_of(o));
            if v.len() == 0 && status == Some("active"@) {
                seq!["awake, no compute clients"@]
            } else {
                v
            }
        },
    }
}

fn label_of(l: &str) -> (r: String)
    ensures
        r@ == client_label(l@),
{
    let name = after_last_char(trim(field_before(l, ',')), '/');
    let mem = match field_after(l, ',') {
        Some(m) => trim(m),
        None => "",
    };
    proof {
        reveal_strlit("");
        assert(""@ =~= Seq::<char>::empty());
    }
    assert(field_after_empty_ok(mem@, l@));
    let mut r = name.to_owned();
    r.append(" (");
    r.append(mem);
    r.append(" MiB)");
    r
}

spec fn field_after_empty_ok(mem: Seq<char>, l: Seq<char>) -> bool {
    mem == (match second_field(l, ',') {
        Some(m) => trimmed(m),
        None => Seq::<char>::empty(),
    })
}

/// `nvidia-smi --query-compute-apps=process_name,used_memory` output (none
/// when the tool could not run) and the runtime power state of the card, as
/// `name (N MiB)` labels.
pub fn gpu_clients(out: Option<&str>, fs: &Sysfs) -> (r: Vec<String>)
    ensures
        string_views(r@) == gpu_clients_spec(
            match out {
                Some(o) => Some(o@),
                None => None,
            },
            fs.read_spec(GPU_RUNTIME_STATUS@),
        ),
{
    let o = match out {
        Some(o) => o,
        None => {
            let v: Vec<String> = Vec::new();
            assert(string_views(v@) =~= Seq::<Seq<char>>::empty());
            return v;
        },
    };
    let ls = lines(o);
    let mut v: Vec<String> = Vec::new();
    let mut i: usize = 0;
    assert(views(ls@).take(0) =~= Seq::<Seq<char>>::empty());
    assert(string_views(v@) =~= Seq::<Seq<char>>::empty());
    while i < ls.len()
        invariant
            i <= ls@.len(),
            string_views(v@) == client_labels(views(ls@).take(i as int)),
        decreases ls@.len() - i,
    {
        let l = ls[i];
        assert(views(ls@).take(i + 1).drop_last() =~= views(ls@).take(i as int));
        assert(views(ls@).take(i + 1).last() == l@);
        if trim(l).unicode_len() > 0 {
            let ghost before = string_views(v@);
            v.push(label_of(l));
            assert(string_views(v@) =~= before.push(client_label(l@)));
        }
        i = i + 1;
    }
    assert(views(ls@).take(ls@.len() as int) =~= views(ls@));
    if v.len() == 0 {
        proof {
            reveal_strlit("active");
        }
        if crate::text::opt_str_is(fs.read(GPU_RUNTIME_STATUS), "active") {
            v.push(String::from_str("awake, no compute clients"));
            assert(string_views(v@) =~= seq!["awake, no compute clients"@]);
        }
    }
    v
}

/// The undervolt field of `intel-undervolt read` output: the first line
/// that starts with `CPU (0): `, with its ` mV` unit removed and trimmed.
pub open spec fn undervolt_field_spec(ls: Seq<Seq<char>>) -> Option<Seq<char>>
    decreases ls.len(),
{
    if ls.len() == 0 {
        None
    } else if has_prefix(ls[0], "CPU (0): "@) {
        Some(trimmed(trim_end_matching(ls[0].skip("CPU (0): "@.len() as int), " mV"@)))
    } else {
        undervolt_field_spec(ls.drop_first())
    }
}

/// The core voltage offset as `intel-undervolt read` prints it, still in
/// its decimal form (negative is undervolt, positive overvolt); `None` when
/// no line reports core 0.
pub fn undervolt_field(out: &str) -> (r: Option<String>)
    ensures
        match r {
            Some(f) => undervolt_field_spec(lines_of(out@)) == Some(f@),
            None => undervolt_field_spec(lines_of(out@)) is None,
        },
{
    let ls = lines(out);
    let mut i: usize = 0;
    assert(views(ls@).skip(0) =~= views(ls@));
    while i < ls.len()
        invariant
            i <= ls@.len(),
            views(ls@) == lines_of(out@),
            undervolt_field_spec(views(ls@)) == undervolt_field_spec(views(ls@).skip(i as int)),
        decreases ls@.len() - i,
    {
        assert(views(ls@).skip(i as int).drop_first() =~= views(ls@).skip(i + 1));
        assert(views(ls@).skip(i as int)[0] == ls@[i as int]@);
        match strip_prefix(ls[i], "CPU (0): ") {
            Some(rest) => {
                let ghost t = views(ls@).skip(i as int);
                assert(t.len() > 0);
                assert(has_prefix(t[0], "CPU (0): "@));
                assert(undervolt_field_spec(t) == Some(
                    trimmed(trim_end_matching(t[0].skip("CPU (0): "@.len() as int), " mV"@)),
                ));
                let f = trim(trim_end_matches(rest, " mV")).to_owned();
                return Some(f);
            },
            None => {},
        }
        i = i + 1;
    }
    None
}

/// The active power-profiles-daemon plan, from `powerprofilesctl get`
/// output: its trimmed text, or nothing when it is empty.
pub fn power_plan(out: &str) -> (r: Option<String>)
    ensures
        match r {
            Some(p) => trimmed(out@).len() > 0 && p@ == trimmed(out@),
            None => trimmed(out@).len() == 0,
        },
{
    let t = trim(out);
    if t.unicode_len() == 0 {
        None
    } else {
        Some(t.to_owned())
    }
}

/// The power ceiling field of `nvidia-smi --query-gpu=name,power.max_limit`
/// output, still in decimal form: the trimmed second field, or `0`.
pub open spec fn gpu_limit_field_spec(out: Seq<char>) -> Seq<char> {
    match second_field(trimmed(out), ',') {
        Some(f) => trimmed(f),
        None => "0"@,
    }
}

pub fn gpu_limit_field(out: &str) -> (r: String)
    ensures
        r@ == gpu_limit_field_spec(out@),
{
    match field_after(trim(out), ',') {
        Some(f) => trim(f).to_owned(),
        None => String::from_str("0"),
    }
}

} // verus!
