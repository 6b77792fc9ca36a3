//! The hardware as the library sees it: a snapshot of sysfs files that the
//! caller has read, and plans of writes that the caller carries out through
//! the privileged helper.

use vstd::prelude::*;
use vstd::string::*;
use crate::text::{decimal, lemma_parse_decimal, contains, is_ws, lines, lines_of, occurs_at, parse_i32, parse_int, str_eq, trim, trim_end, trim_start, trimmed};

verus! {

/// Files read from sysfs, by path, with their contents as read.  A path that
/// could not be read is simply absent.
pub struct Sysfs {
    pub files: Vec<(String, String)>,
}

/// The contents recorded for `path`; the first record wins.
pub open spec fn lookup(files: Seq<(String, String)>, path: Seq<char>) -> Option<Seq<char>>
    decreases files.len(),
{
    if files.len() == 0 {
        None
    } else if files[0].0@ == path {
        Some(files[0].1@)
    } else {
        lookup(files.drop_first(), path)
    }
}

/// What `read` gives for an optional file content: the text trimmed.
pub open spec fn trimmed_opt(o: Option<Seq<char>>) -> Option<Seq<char>> {
    match o {
        Some(s) => Some(trimmed(s)),
        None => None,
    }
}

impl Sysfs {
    /// What reading `path` yields: its contents without surrounding
    /// whitespace, or nothing when it could not be read.
    pub open spec fn read_spec(&self, path: Seq<char>) -> Option<Seq<char>> {
        trimmed_opt(lookup(self.files@, path))
    }

    pub fn new() -> (r: Sysfs)
        ensures
            r.files@.len() == 0,
            forall|p: Seq<char>| #[trigger] r.read_spec(p) is None,
    {
        Sysfs { files: Vec::new() }
    }

    /// Records the contents read from `path`.  An earlier record of the same
    /// path is kept.
    pub fn add(&mut self, path: String, contents: String)
        ensures
            final(self).files@ == old(self).files@.push((path, contents)),
    {
        self.files.push((path, contents));
    }

    /// The trimmed contents of `path`.
    pub fn read(&self, path: &str) -> (r: Option<&str>)
        ensures
            match r {
                Some(t) => self.read_spec(path@) == Some(t@),
                None => self.read_spec(path@) is None,
            },
    {
        let key = path.to_owned();
        let n = self.files.len();
        let mut i: usize = 0;
        assert(self.files@.skip(0) =~= self.files@);
        while i < n
            invariant
                n == self.files@.len(),
                i <= n,
                key@ == path@,
                lookup(self.files@, path@) == lookup(self.files@.skip(i as int), path@),
            decreases n - i,
        {
            assert(self.files@.skip(i as int).drop_first() =~= self.files@.skip(i + 1));
            if self.files[i].0 == key {
                return Some(trim(self.files[i].1.as_str()));
            }
            i = i + 1;
        }
        None
    }
}

/// `read(path)?.parse().ok()` on an already read value.
pub open spec fn read_i32_spec(o: Option<Seq<char>>) -> Option<int> {
    match o {
        Some(s) => parse_int(s, true, i32::MIN as int, i32::MAX as int),
        None => None,
    }
}

/// A sysfs value as an `i32`: `None` when the file was not read or does not
/// hold a number.
pub fn read_i32(o: Option<&str>) -> (r: Option<i32>)
    ensures
        match r {
            Some(v) => read_i32_spec(opt_view(o)) == Some(v as int),
            None => read_i32_spec(opt_view(o)) is None,
        },
{
    match o {
        Some(s) => parse_i32(s),
        None => None,
    }
}

pub open spec fn opt_view(o: Option<&str>) -> Option<Seq<char>> {
    match o {
        Some(s) => Some(s@),
        None => None,
    }
}

/// A numeric sysfs value with a default for a missing or unreadable file.
pub open spec fn i32_or(o: Option<Seq<char>>, dflt: int) -> int {
    match read_i32_spec(o) {
        Some(v) => v,
        None => dflt,
    }
}

pub fn read_i32_or(o: Option<&str>, dflt: i32) -> (r: i32)
    ensures
        r == i32_or(opt_view(o), dflt as int),
{
    match read_i32(o) {
        Some(v) => v,
        None => dflt,
    }
}

/// A sysfs switch reads as on when the file holds exactly `1`.
pub open spec fn flag_on(o: Option<Seq<char>>) -> bool {
    o == Some(seq!['1'])
}

pub fn is_on(o: Option<&str>) -> (r: bool)
    ensures
        r == flag_on(opt_view(o)),
{
    match o {
        Some(s) => {
            proof {
                reveal_strlit("1");
            }
            assert("1"@ =~= seq!['1']);
            str_eq(s, "1")
        },
        None => false,
    }
}

/// What to do when a write fails.
#[derive(Debug, PartialEq, Eq)]
pub enum OnError {
    /// Add the error to the report, after the given prefix.
    Report(String),
    /// Carry on as though it had worked.
    Ignore,
    /// Add the error to the report and perform no further step.
    Stop,
}

/// One step of a plan.
#[derive(Debug, PartialEq, Eq)]
pub enum Step {
    /// Write `value` to the sysfs file at `path` through the helper.
    Write { path: String, value: i32, on_error: OnError },
    /// Wait for the firmware to settle.
    Sleep { ms: u64 },
}

/// The mathematical content of an `OnError`.
pub enum OnErrorView {
    Report(Seq<char>),
    Ignore,
    Stop,
}

/// The mathematical content of a `Step`.
pub enum StepView {
    Write { path: Seq<char>, value: int, on_error: OnErrorView },
    Sleep { ms: nat },
}

impl View for OnError {
    type V = OnErrorView;

    open spec fn view(&self) -> OnErrorView {
        match self {
            OnError::Report(p) => OnErrorView::Report(p@),
            OnError::Ignore => OnErrorView::Ignore,
            OnError::Stop => OnErrorView::Stop,
        }
    }
}

impl View for Step {
    type V = StepView;

    open spec fn view(&self) -> StepView {
        match self {
            Step::Write { path, value, on_error } => StepView::Write {
                path: path@,
                value: *value as int,
                on_error: on_error@,
            },
            Step::Sleep { ms } => StepView::Sleep { ms: *ms as nat },
        }
    }
}

/// The views of a plan's steps.
pub open spec fn plan_view(p: Seq<Step>) -> Seq<StepView> {
    p.map_values(|s: Step| s@)
}

/// A write whose failure is reported without a prefix.
pub open spec fn reported(path: Seq<char>, value: int) -> StepView {
    StepView::Write { path, value, on_error: OnErrorView::Report(Seq::empty()) }
}

pub fn report_write(path: String, value: i32) -> (s: Step)
    ensures
        s@ == reported(path@, value as int),
{
    let p = String::new();
    Step::Write { path, value, on_error: OnError::Report(p) }
}

/// The first line of `trimmed(s)`, or `dflt` when nothing is left.
pub open spec fn first_line_or(s: Seq<char>, dflt: Seq<char>) -> Seq<char> {
    let ls = lines_of(trimmed(s));
    if ls.len() > 0 {
        ls[0]
    } else {
        dflt
    }
}

/// The last line of `trimmed(s)`, or `dflt` when nothing is left.
pub open spec fn last_line_or(s: Seq<char>, dflt: Seq<char>) -> Seq<char> {
    let ls = lines_of(trimmed(s));
    if ls.len() > 0 {
        ls.last()
    } else {
        dflt
    }
}

pub fn first_line_of(s: &str, dflt: &str) -> (r: String)
    ensures
        r@ == first_line_or(s@, dflt@),
{
    let ls = lines(trim(s));
    if ls.len() > 0 {
        ls[0].to_owned()
    } else {
        dflt.to_owned()
    }
}

pub fn last_line_of(s: &str, dflt: &str) -> (r: String)
    ensures
        r@ == last_line_or(s@, dflt@),
{
    let ls = lines(trim(s));
    if ls.len() > 0 {
        ls[ls.len() - 1].to_owned()
    } else {
        dflt.to_owned()
    }
}

/// How a helper `set` run ends, from its exit code and error output.
///
/// Exit code 4 means the value landed but reads back differently (the
/// firmware clamped or quantised it), which is no failure.
pub open spec fn helper_outcome_spec(code: Option<int>, stderr: Seq<char>, path: Seq<char>) -> Result<(), Seq<char>> {
    if code == Some(0int) || code == Some(4int) {
        Ok(())
    } else {
        let err = trimmed(stderr);
        if exists|i: int| occurs_at(err, "password is required"@, i) {
            Err("helper not authorised - run: sudo ./install.sh"@)
        } else if err.len() == 0 {
            Err("write to "@ + path + " failed"@)
        } else {
            Err(first_line_or(err, "write failed"@))
        }
    }
}

pub open spec fn result_view(r: Result<(), String>) -> Result<(), Seq<char>> {
    match r {
        Ok(()) => Ok(()),
        Err(e) => Err(e@),
    }
}

pub open spec fn code_view(c: Option<i32>) -> Option<int> {
    match c {
        Some(v) => Some(v as int),
        None => None,
    }
}

/// The outcome of a privileged write through the helper.
pub fn helper_outcome(code: Option<i32>, stderr: &str, path: &str) -> (r: Result<(), String>)
    ensures
        result_view(r) == helper_outcome_spec(code_view(code), stderr@, path@),
{
    match code {
        Some(0) | Some(4) => Ok(()),
        _ => {
            let err = trim(stderr);
            if contains(err, "password is required") {
                Err(String::from_str("helper not authorised - run: sudo ./install.sh"))
            } else if err.unicode_len() == 0 {
                let mut m = String::from_str("write to ");
                m.append(path);
                m.append(" failed");
                Err(m)
            } else {
                proof {
                    assert(trimmed(err@) == err@) by {
                        lemma_trimmed_idempotent(stderr@);
                    }
                }
                Err(first_line_of(err, "write failed"))
            }
        },
    }
}

/// The outcome of the helper's `undervolt` verb.  Exit code 4 means the
/// applied offset did not match the request, which happens when the BIOS
/// UnderVolt Protection swallows the write.
pub open spec fn undervolt_outcome_spec(code: Option<int>, stderr: Seq<char>) -> Result<(), Seq<char>> {
    if code == Some(0int) {
        Ok(())
    } else if code == Some(4int) {
        Err("offset did not take - check UnderVolt Protection in BIOS"@)
    } else {
        Err(first_line_or(stderr, "undervolt failed"@))
    }
}

pub fn undervolt_outcome(code: Option<i32>, stderr: &str) -> (r: Result<(), String>)
    ensures
        result_view(r) == undervolt_outcome_spec(code_view(code), stderr@),
{
    match code {
        Some(0) => Ok(()),
        Some(4) => Err(String::from_str("offset did not take - check UnderVolt Protection in BIOS")),
        _ => Err(first_line_of(stderr, "undervolt failed")),
    }
}

/// The outcome of a helper verb that only reports success or failure: on
/// failure, the first line of its error output, or `fallback`.
pub open spec fn verb_outcome_spec(success: bool, stderr: Seq<char>, fallback: Seq<char>) -> Result<(), Seq<char>> {
    if success {
        Ok(())
    } else {
        Err(first_line_or(stderr, fallback))
    }
}

pub fn verb_outcome(success: bool, stderr: &str, fallback: &str) -> (r: Result<(), String>)
    ensures
        result_view(r) == verb_outcome_spec(success, stderr@, fallback@),
{
    if success {
        Ok(())
    } else {
        Err(first_line_of(stderr, fallback))
    }
}

proof fn lemma_trim_start_idem(s: Seq<char>)
    ensures
        trim_start(trim_start(s)) == trim_start(s),
        trim_start(s).len() > 0 ==> !is_ws(trim_start(s)[0]),
    decreases s.len(),
{
    if s.len() > 0 && is_ws(s[0]) {
        lemma_trim_start_idem(s.drop_first());
    }
}

proof fn lemma_trim_end_keeps_start(s: Seq<char>)
    requires
        s.len() > 0 ==> !is_ws(s[0]),
    ensures
        trim_end(s).len() > 0 ==> !is_ws(trim_end(s)[0]),
        trim_end(s).len() > 0 ==> !is_ws(trim_end(s).last()),
        trim_start(trim_end(s)) == trim_end(s),
        trim_end(trim_end(s)) == trim_end(s),
    decreases s.len(),
{
    if s.len() > 0 && is_ws(s.last()) {
        let t = s.drop_last();
        assert(t.len() > 0 ==> t[0] == s[0]);
        lemma_trim_end_keeps_start(t);
    }
}

/// Trimming twice is trimming once.
pub proof fn lemma_trimmed_idempotent(s: Seq<char>)
    ensures
        trimmed(trimmed(s)) == trimmed(s),
{
    lemma_trim_start_idem(s);
    lemma_trim_end_keeps_start(trim_start(s));
}


proof fn lemma_nat_digits_no_ws(n: nat)
    ensures
        forall|i: int| 0 <= i < crate::text::nat_digits(n).len() ==> !is_ws(#[trigger] crate::text::nat_digits(n)[i]),
    decreases n,
{
    if n >= 10 {
        lemma_nat_digits_no_ws(n / 10);
        let d = crate::text::nat_digits(n);
        assert forall|i: int| 0 <= i < d.len() implies !is_ws(#[trigger] d[i]) by {
            if i < d.len() - 1 {
                assert(d[i] == crate::text::nat_digits(n / 10)[i]);
            } else {
                assert(d[i] == crate::text::digit_char((n % 10) as int));
            }
        }
    }
}

/// Reading a value back gives what was written: the helper writes a value
/// as its decimal text, and reading that text as a sysfs value recovers it.
pub proof fn lemma_written_value_reads_back(v: i32)
    ensures
        read_i32_spec(trimmed_opt(Some(decimal(v as int)))) == Some(v as int),
{
    let s = decimal(v as int);
    let mag: nat = if v < 0 { (-(v as int)) as nat } else { v as nat };
    lemma_nat_digits_no_ws(mag);
    let dg = crate::text::nat_digits(mag);
    assert(s.len() > 0 && !is_ws(s[0])) by {
        if v < 0 {
            assert(s[0] == '-');
        } else {
            assert(dg.len() >= 1) by {
                lemma_digits_nonempty(mag);
            }
        }
    }
    assert(!is_ws(s.last())) by {
        lemma_digits_nonempty(mag);
        if v < 0 {
            assert(s.last() == dg.last());
        }
    }
    assert(trim_start(s) == s);
    assert(trim_end(s) == s);
    lemma_parse_decimal(v as int, true, i32::MIN as int, i32::MAX as int);
}

proof fn lemma_digits_nonempty(n: nat)
    ensures
        crate::text::nat_digits(n).len() >= 1,
    decreases n,
{
    if n >= 10 {
        lemma_digits_nonempty(n / 10);
    }
}

} // verus!
