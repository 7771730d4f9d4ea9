//! Reading the outcome of a LaTeX run: fatal-error detection, warnings and error messages, taken
//! from the program's output and, where it was readable, from its log file.
use vstd::prelude::*;

use crate::strings::{
    chars_of, contains, contains_exec, occurs_at, lines, split_lines, starts_with, starts_with_exec,
    string_from_chars, to_strings, trim, trim_exec, vec_holds, views, vviews,
};

verus! {

/// The text searched for warnings and errors: standard error, a newline, standard output.
pub open spec fn combined(stderr: Seq<char>, stdout: Seq<char>) -> Seq<char> {
    stderr + seq!['\n'] + stdout
}

/// The first `n` entries of `s` (all of them if there are fewer).
pub open spec fn truncate_to(s: Seq<Seq<char>>, n: nat) -> Seq<Seq<char>> {
    if s.len() > n {
        s.take(n as int)
    } else {
        s
    }
}

/// A line that reports a warning.
pub open spec fn is_warning_line(l: Seq<char>) -> bool {
    contains(l, "Warning:"@) || contains(l, "Overfull"@) || contains(l, "Underfull"@)
}

/// The warning lines among `ls`, trimmed, in order.
pub open spec fn output_warnings(ls: Seq<Seq<char>>) -> Seq<Seq<char>>
    decreases ls.len(),
{
    if ls.len() == 0 {
        seq![]
    } else if is_warning_line(ls.last()) {
        output_warnings(ls.drop_last()).push(trim(ls.last()))
    } else {
        output_warnings(ls.drop_last())
    }
}

/// `acc` extended by the trimmed warning lines of the log lines `ls` not already present.
pub open spec fn add_log_warnings(acc: Seq<Seq<char>>, ls: Seq<Seq<char>>) -> Seq<Seq<char>>
    decreases ls.len(),
{
    if ls.len() == 0 {
        acc
    } else {
        let p = add_log_warnings(acc, ls.drop_last());
        let t = trim(ls.last());
        if is_warning_line(t) && !p.contains(t) {
            p.push(t)
        } else {
            p
        }
    }
}

/// The warnings of a run: those in its output, then new ones from its log, at most ten.
pub open spec fn warnings_of(stderr: Seq<char>, stdout: Seq<char>, log: Option<Seq<char>>) -> Seq<
    Seq<char>,
> {
    let w = output_warnings(lines(combined(stderr, stdout)));
    truncate_to(
        match log {
            Some(l) => add_log_warnings(w, lines(l)),
            None => w,
        },
        10,
    )
}

/// A line of the program's output that reports an error: `"! "` messages other than the final
/// "Emergency stop"/"Fatal error"/`==>` lines, and `"l."` line pointers.
pub open spec fn is_error_line(l: Seq<char>) -> bool {
    ||| (starts_with(l, "! "@) && !contains(l, "Emergency stop"@) && !contains(l, "Fatal error"@)
        && !contains(l, "==>"@))
    ||| starts_with(l, "l."@)
}

/// The error lines among `ls`, trimmed, in order.
pub open spec fn output_errors(ls: Seq<Seq<char>>) -> Seq<Seq<char>>
    decreases ls.len(),
{
    if ls.len() == 0 {
        seq![]
    } else if is_error_line(ls.last()) {
        output_errors(ls.drop_last()).push(trim(ls.last()))
    } else {
        output_errors(ls.drop_last())
    }
}

/// Error messages of a log: every `"! "` line, with the `"l."` or indented lines right after it,
/// trimmed; paired with whether the scan is inside such a block after `ls`.
pub open spec fn log_error_scan(ls: Seq<Seq<char>>) -> (Seq<Seq<char>>, bool)
    decreases ls.len(),
{
    if ls.len() == 0 {
        (seq![], false)
    } else {
        let (e, inside) = log_error_scan(ls.drop_last());
        let line = ls.last();
        if starts_with(line, "! "@) {
            (e.push(trim(line)), true)
        } else if inside && (starts_with(line, "l."@) || starts_with(line, " "@)) {
            (e.push(trim(line)), true)
        } else {
            (e, false)
        }
    }
}

/// A log line worth showing as a last resort: not empty, not the "Transcript written" or
/// "Output written" notes, not starting with a parenthesis.
pub open spec fn is_tail_line(l: Seq<char>) -> bool {
    &&& l.len() > 0
    &&& !contains(l, "Transcript written"@)
    &&& !contains(l, "Output written"@)
    &&& !starts_with(l, "("@)
    &&& !starts_with(l, ")"@)
}

/// The lines of `ls` worth showing, in order.
pub open spec fn tail_lines(ls: Seq<Seq<char>>) -> Seq<Seq<char>>
    decreases ls.len(),
{
    if ls.len() == 0 {
        seq![]
    } else if is_tail_line(ls.last()) {
        tail_lines(ls.drop_last()).push(ls.last())
    } else {
        tail_lines(ls.drop_last())
    }
}

/// The last `n` entries of `s` (all of them if there are fewer).
pub open spec fn last_n(s: Seq<Seq<char>>, n: nat) -> Seq<Seq<char>> {
    if s.len() > n {
        s.subrange(s.len() - n, s.len() as int)
    } else {
        s
    }
}

/// The message shown when no error could be found.
pub open spec fn generic_failure() -> Seq<char> {
    "Compilation failed. Check your LaTeX syntax."@
}

/// The errors of a failed run, at most eight: the error lines of its output; failing that,
/// the error blocks of its log; failing that, up to five notable lines among the last fifteen of
/// the log; failing that, a generic message.
pub open spec fn errors_of(stderr: Seq<char>, stdout: Seq<char>, log: Option<Seq<char>>) -> Seq<
    Seq<char>,
> {
    let e1 = output_errors(lines(combined(stderr, stdout)));
    let e2 = if e1.len() == 0 && log is Some {
        log_error_scan(lines(log->Some_0)).0
    } else {
        e1
    };
    let e3 = if e2.len() == 0 && log is Some {
        truncate_to(tail_lines(last_n(lines(log->Some_0), 15)), 5)
    } else {
        e2
    };
    let e4 = if e3.len() == 0 {
        seq![generic_failure()]
    } else {
        e3
    };
    truncate_to(e4, 8)
}

/// The view of an optional string slice.
pub open spec fn opt_view(o: Option<&str>) -> Option<Seq<char>> {
    match o {
        Some(s) => Some(s@),
        None => None,
    }
}

/// Whether the log (if it could be read) reports "Fatal error occurred".
pub fn read_log_fatal(log: Option<&str>) -> (r: bool)
    ensures
        r == match log {
            Some(l) => contains(l@, "Fatal error occurred"@),
            None => false,
        },
{
    match log {
        Some(l) => {
            let c = chars_of(l);
            let needle = chars_of("Fatal error occurred");
            contains_exec(c.as_slice(), needle.as_slice())
        },
        None => false,
    }
}

fn is_warning_exec(l: &[char], w: &[char], o: &[char], u: &[char]) -> (r: bool)
    requires
        w@ == "Warning:"@,
        o@ == "Overfull"@,
        u@ == "Underfull"@,
    ensures
        r == is_warning_line(l@),
{
    contains_exec(l, w) || contains_exec(l, o) || contains_exec(l, u)
}

/// The lines of `stderr`, a newline, and `stdout`.
fn combined_lines(stderr: &str, stdout: &str) -> (r: Vec<Vec<char>>)
    ensures
        vviews(r@) == lines(combined(stderr@, stdout@)),
{
    let mut all = chars_of(stderr);
    all.push('\n');
    let mut rest = chars_of(stdout);
    all.append(&mut rest);
    assert(all@ =~= combined(stderr@, stdout@));
    split_lines(all.as_slice())
}

/// Keeps the first `n` entries.
fn truncate_lines(v: &mut Vec<Vec<char>>, n: usize)
    ensures
        vviews(final(v)@) == truncate_to(vviews(old(v)@), n as nat),
{
    let ghost before = v@;
    v.truncate(n);
    proof {
        if before.len() > n {
            assert(vviews(v@) =~= vviews(before).take(n as int));
        } else {
            assert(v@ == before);
        }
    }
}

/// The warnings of a LaTeX run, from its standard error and output and, where it could be read,
/// its log file: warning lines of the output, then warning lines of the log not already listed,
/// all trimmed, at most ten.
pub fn extract_warnings(stderr: &str, stdout: &str, log: Option<&str>) -> (r: Vec<String>)
    ensures
        views(r@) == warnings_of(stderr@, stdout@, opt_view(log)),
{
    let w = chars_of("Warning:");
    let o = chars_of("Overfull");
    let u = chars_of("Underfull");
    let ls = combined_lines(stderr, stdout);
    let ghost lsv = vviews(ls@);
    let mut warnings: Vec<Vec<char>> = Vec::new();
    let mut i: usize = 0;
    while i < ls.len()
        invariant
            w@ == "Warning:"@,
            o@ == "Overfull"@,
            u@ == "Underfull"@,
            lsv == vviews(ls@),
            0 <= i <= ls@.len(),
            vviews(warnings@) == output_warnings(lsv.take(i as int)),
        decreases ls@.len() - i,
    {
        proof {
            assert(lsv.take(i + 1).drop_last() =~= lsv.take(i as int));
            assert(lsv.take(i + 1).last() == ls@[i as int]@);
        }
        if is_warning_exec(ls[i].as_slice(), w.as_slice(), o.as_slice(), u.as_slice()) {
            let t = trim_exec(ls[i].as_slice());
            proof {
                assert(vviews(warnings@.push(t)) =~= vviews(warnings@).push(t@));
            }
            warnings.push(t);
        }
        i = i + 1;
    }
    proof {
        assert(lsv.take(ls@.len() as int) =~= lsv);
    }
    let ghost w0 = vviews(warnings@);
    if let Some(l) = log {
        let lc = chars_of(l);
        let lls = split_lines(lc.as_slice());
        let ghost llv = vviews(lls@);
        let mut j: usize = 0;
        while j < lls.len()
            invariant
                w@ == "Warning:"@,
                o@ == "Overfull"@,
                u@ == "Underfull"@,
                llv == vviews(lls@),
                llv == lines(l@),
                0 <= j <= lls@.len(),
                vviews(warnings@) == add_log_warnings(w0, llv.take(j as int)),
            decreases lls@.len() - j,
        {
            proof {
                assert(llv.take(j + 1).drop_last() =~= llv.take(j as int));
                assert(llv.take(j + 1).last() == lls@[j as int]@);
            }
            let t = trim_exec(lls[j].as_slice());
            if is_warning_exec(t.as_slice(), w.as_slice(), o.as_slice(), u.as_slice())
                && !vec_holds(&warnings, t.as_slice()) {
                proof {
                    assert(vviews(warnings@.push(t)) =~= vviews(warnings@).push(t@));
                }
                warnings.push(t);
            }
            j = j + 1;
        }
        proof {
            assert(llv.take(lls@.len() as int) =~= llv);
        }
    }
    truncate_lines(&mut warnings, 10);
    to_strings(&warnings)
}

struct ErrorNeedles {
    bang: Vec<char>,
    emergency: Vec<char>,
    fatal: Vec<char>,
    arrow: Vec<char>,
    lref: Vec<char>,
    space: Vec<char>,
    transcript: Vec<char>,
    output: Vec<char>,
    open: Vec<char>,
    close: Vec<char>,
}

impl ErrorNeedles {
    spec fn ok(&self) -> bool {
        &&& self.bang@ == "! "@
        &&& self.emergency@ == "Emergency stop"@
        &&& self.fatal@ == "Fatal error"@
        &&& self.arrow@ == "==>"@
        &&& self.lref@ == "l."@
        &&& self.space@ == " "@
        &&& self.transcript@ == "Transcript written"@
        &&& self.output@ == "Output written"@
        &&& self.open@ == "("@
        &&& self.close@ == ")"@
    }

    fn new() -> (r: Self)
        ensures
            r.ok(),
    {
        ErrorNeedles {
            bang: chars_of("! "),
            emergency: chars_of("Emergency stop"),
            fatal: chars_of("Fatal error"),
            arrow: chars_of("==>"),
            lref: chars_of("l."),
            space: chars_of(" "),
            transcript: chars_of("Transcript written"),
            output: chars_of("Output written"),
            open: chars_of("("),
            close: chars_of(")"),
        }
    }

    fn is_error(&self, l: &[char]) -> (r: bool)
        requires
            self.ok(),
        ensures
            r == is_error_line(l@),
    {
        (starts_with_exec(l, self.bang.as_slice()) && !contains_exec(l, self.emergency.as_slice())
            && !contains_exec(l, self.fatal.as_slice()) && !contains_exec(l, self.arrow.as_slice()))
            || starts_with_exec(l, self.lref.as_slice())
    }

    fn is_tail(&self, l: &[char]) -> (r: bool)
        requires
            self.ok(),
        ensures
            r == is_tail_line(l@),
    {
        l.len() > 0 && !contains_exec(l, self.transcript.as_slice()) && !contains_exec(
            l,
            self.output.as_slice(),
        ) && !starts_with_exec(l, self.open.as_slice()) && !starts_with_exec(
            l,
            self.close.as_slice(),
        )
    }
}

/// The error messages of a failed LaTeX run (at most eight): the error lines of its standard
/// error and output, trimmed; if there are none, the error blocks of its log (where it could be
/// read); if still none, up to five notable lines among the last fifteen of the log; if still
/// none, "Compilation failed. Check your LaTeX syntax.".
pub fn extract_errors(stderr: &str, stdout: &str, log: Option<&str>) -> (r: Vec<String>)
    ensures
        views(r@) == errors_of(stderr@, stdout@, opt_view(log)),
{
    let nd = ErrorNeedles::new();
    let ls = combined_lines(stderr, stdout);
    let ghost lsv = vviews(ls@);
    let mut errors: Vec<Vec<char>> = Vec::new();
    let mut i: usize = 0;
    while i < ls.len()
        invariant
            nd.ok(),
            lsv == vviews(ls@),
            0 <= i <= ls@.len(),
            vviews(errors@) == output_errors(lsv.take(i as int)),
        decreases ls@.len() - i,
    {
        proof {
            assert(lsv.take(i + 1).drop_last() =~= lsv.take(i as int));
            assert(lsv.take(i + 1).last() == ls@[i as int]@);
        }
        if nd.is_error(ls[i].as_slice()) {
            let t = trim_exec(ls[i].as_slice());
            proof {
                assert(vviews(errors@.push(t)) =~= vviews(errors@).push(t@));
            }
            errors.push(t);
        }
        i = i + 1;
    }
    proof {
        assert(lsv.take(ls@.len() as int) =~= lsv);
    }
    let ghost e1 = vviews(errors@);
    if errors.len() == 0 {
        if let Some(l) = log {
            let lc = chars_of(l);
            let lls = split_lines(lc.as_slice());
            let ghost llv = vviews(lls@);
            let mut inside = false;
            let mut j: usize = 0;
            while j < lls.len()
                invariant
                    nd.ok(),
                    llv == vviews(lls@),
                    0 <= j <= lls@.len(),
                    (vviews(errors@), inside) == log_error_scan(llv.take(j as int)),
                decreases lls@.len() - j,
            {
                proof {
                    assert(llv.take(j + 1).drop_last() =~= llv.take(j as int));
                    assert(llv.take(j + 1).last() == lls@[j as int]@);
                }
                let line = lls[j].as_slice();
                if starts_with_exec(line, nd.bang.as_slice()) {
                    let t = trim_exec(line);
                    proof {
                        assert(vviews(errors@.push(t)) =~= vviews(errors@).push(t@));
                    }
                    errors.push(t);
                    inside = true;
                } else if inside {
                    if starts_with_exec(line, nd.lref.as_slice()) || starts_with_exec(
                        line,
                        nd.space.as_slice(),
                    ) {
                        let t = trim_exec(line);
                        proof {
                            assert(vviews(errors@.push(t)) =~= vviews(errors@).push(t@));
                        }
                        errors.push(t);
                    } else {
                        inside = false;
                    }
                }
                j = j + 1;
            }
            proof {
                assert(llv.take(lls@.len() as int) =~= llv);
            }
        }
    }
    let ghost e2 = vviews(errors@);
    if errors.len() == 0 {
        if let Some(l) = log {
            let lc = chars_of(l);
            let lls = split_lines(lc.as_slice());
            let ghost llv = vviews(lls@);
            let n = lls.len();
            let from = if n > 15 {
                n - 15
            } else {
                0
            };
            let ghost tail = last_n(llv, 15);
            proof {
                assert(tail =~= llv.subrange(from as int, n as int));
            }
            let mut tl: Vec<Vec<char>> = Vec::new();
            let mut j: usize = from;
            while j < n
                invariant
                    nd.ok(),
                    llv == vviews(lls@),
                    n == lls@.len(),
                    from <= j <= n,
                    tail == llv.subrange(from as int, n as int),
                    vviews(tl@) == tail_lines(tail.take(j - from)),
                decreases n - j,
            {
                proof {
                    assert(tail.take(j - from + 1).drop_last() =~= tail.take(j - from));
                    assert(tail.take(j - from + 1).last() == lls@[j as int]@);
                }
                if nd.is_tail(lls[j].as_slice()) {
                    let t = copy_line(&lls[j]);
                    proof {
                        assert(vviews(tl@.push(t)) =~= vviews(tl@).push(t@));
                    }
                    tl.push(t);
                }
                j = j + 1;
            }
            proof {
                assert(tail.take(n - from) =~= tail);
            }
            truncate_lines(&mut tl, 5);
            errors = tl;
        }
    }
    let ghost e3 = vviews(errors@);
    if errors.len() == 0 {
        let g = chars_of("Compilation failed. Check your LaTeX syntax.");
        proof {
            assert(vviews(errors@.push(g)) =~= seq![generic_failure()]);
        }
        errors.push(g);
    }
    truncate_lines(&mut errors, 8);
    to_strings(&errors)
}

fn copy_line(v: &Vec<char>) -> (r: Vec<char>)
    ensures
        r@ == v@,
{
    let r = crate::strings::copy_range(v.as_slice(), 0, v.len());
    assert(v@.subrange(0, v@.len() as int) =~= v@);
    r
}


/// A trimmed line says nothing its line does not: what occurs in `trim(l)` occurs in `l`.
proof fn lemma_trim_keeps_absence(l: Seq<char>, needle: Seq<char>)
    requires
        needle.len() > 0,
        !contains(l, needle),
    ensures
        !contains(trim(l), needle),
{
    crate::strings::lemma_skip_ws(l, 0);
    crate::strings::lemma_skip_ws_back(l, l.len() as int);
    let a = crate::strings::skip_ws(l, 0);
    let z = crate::strings::skip_ws_back(l, l.len() as int);
    if contains(trim(l), needle) {
        let i = choose|i: int| occurs_at(trim(l), needle, i);
        if a < z {
            assert(l.subrange(a + i, a + i + needle.len()) =~= trim(l).subrange(i, i + needle.len()));
            assert(occurs_at(l, needle, a + i));
        }
    }
}

/// `m` is the trimmed form of an error line of `ls`.
spec fn from_error_line(ls: Seq<Seq<char>>, m: Seq<char>) -> bool {
    exists|j: int| 0 <= j < ls.len() && m == trim(ls[j]) && is_error_line(ls[j])
}

/// Each error listed from output lines `ls` is a trimmed error line of `ls`.
proof fn lemma_output_errors_from(ls: Seq<Seq<char>>)
    ensures
        forall|k: int|
            0 <= k < output_errors(ls).len() ==> from_error_line(ls, #[trigger] output_errors(ls)[k]),
    decreases ls.len(),
{
    if ls.len() > 0 {
        lemma_output_errors_from(ls.drop_last());
        let p = output_errors(ls.drop_last());
        assert forall|k: int| 0 <= k < output_errors(ls).len() implies from_error_line(
            ls,
            #[trigger] output_errors(ls)[k],
        ) by {
            if k < p.len() {
                assert(output_errors(ls)[k] == p[k]);
                assert(from_error_line(ls.drop_last(), p[k]));
                let j = choose|j: int|
                    0 <= j < ls.drop_last().len() && p[k] == trim(ls.drop_last()[j])
                        && is_error_line(ls.drop_last()[j]);
                assert(ls[j] == ls.drop_last()[j]);
            } else {
                assert(output_errors(ls)[k] == trim(ls.last()));
                assert(ls[ls.len() - 1] == ls.last());
            }
        }
    }
}

/// With no log, every error message of a failed run is the generic message or a trimmed line
/// of the program's output: one that begins with `l.`, or one that begins with `! ` whose
/// message says nothing of "Emergency stop", "Fatal error" or `==>` (the closing lines of a
/// failed run are never listed).
pub proof fn law_output_errors_skip_closing_lines(stderr: Seq<char>, stdout: Seq<char>)
    ensures
        ({
            let r = errors_of(stderr, stdout, None);
            let ls = lines(combined(stderr, stdout));
            forall|k: int|
                0 <= k < r.len() ==> #[trigger] r[k] == "Compilation failed. Check your LaTeX syntax."@
                    || exists|j: int|
                    0 <= j < ls.len() && r[k] == trim(ls[j]) && (starts_with(ls[j], "l."@) || (
                    starts_with(ls[j], "! "@) && !contains(r[k], "Emergency stop"@) && !contains(
                        r[k],
                        "Fatal error"@,
                    ) && !contains(r[k], "==>"@)))
        }),
{
    let ls = lines(combined(stderr, stdout));
    let e1 = output_errors(ls);
    let r = errors_of(stderr, stdout, None);
    lemma_output_errors_from(ls);
    assert forall|k: int| 0 <= k < r.len() implies #[trigger] r[k]
        == "Compilation failed. Check your LaTeX syntax."@ || exists|j: int|
        0 <= j < ls.len() && r[k] == trim(ls[j]) && (starts_with(ls[j], "l."@) || (starts_with(
            ls[j],
            "! "@,
        ) && !contains(r[k], "Emergency stop"@) && !contains(r[k], "Fatal error"@) && !contains(
            r[k],
            "==>"@,
        ))) by {
        if e1.len() > 0 {
            assert(r[k] == e1[k]);
            assert(from_error_line(ls, e1[k]));
            let j = choose|j: int|
                0 <= j < ls.len() && e1[k] == trim(ls[j]) && is_error_line(ls[j]);
            if !starts_with(ls[j], "l."@) {
                reveal_strlit("Emergency stop");
                reveal_strlit("Fatal error");
                reveal_strlit("==>");
                lemma_trim_keeps_absence(ls[j], "Emergency stop"@);
                lemma_trim_keeps_absence(ls[j], "Fatal error"@);
                lemma_trim_keeps_absence(ls[j], "==>"@);
            }
        }
    }
}


/// An error line as the program prints it: a `! ` message that is not one of the closing lines
/// ("Emergency stop", "Fatal error", `==>`), or an `l.` line pointer.
pub open spec fn reports_error(l: Seq<char>) -> bool {
    ||| (starts_with(l, "! "@) && !contains(l, "Emergency stop"@) && !contains(l, "Fatal error"@)
        && !contains(l, "==>"@))
    ||| starts_with(l, "l."@)
}

proof fn lemma_output_errors_first(ls: Seq<Seq<char>>, j0: int)
    requires
        0 <= j0 < ls.len(),
        reports_error(ls[j0]),
        forall|j: int| 0 <= j < j0 ==> !reports_error(#[trigger] ls[j]),
    ensures
        output_errors(ls).len() > 0,
        output_errors(ls)[0] == trim(ls[j0]),
    decreases ls.len(),
{
    let d = ls.drop_last();
    if j0 < ls.len() - 1 {
        assert forall|j: int| 0 <= j < j0 implies !reports_error(#[trigger] d[j]) by {
            assert(d[j] == ls[j]);
        }
        assert(d[j0] == ls[j0]);
        lemma_output_errors_first(d, j0);
    } else {
        assert(output_errors(d).len() == 0) by {
            lemma_no_output_errors(d);
            assert forall|j: int| 0 <= j < d.len() implies !reports_error(#[trigger] d[j]) by {
                assert(d[j] == ls[j]);
            }
        }
        assert(ls.last() == ls[j0]);
    }
}

proof fn lemma_no_output_errors(ls: Seq<Seq<char>>)
    ensures
        (forall|j: int| 0 <= j < ls.len() ==> !reports_error(#[trigger] ls[j])) ==> output_errors(ls).len() == 0,
    decreases ls.len(),
{
    if ls.len() > 0 {
        lemma_no_output_errors(ls.drop_last());
        if forall|j: int| 0 <= j < ls.len() ==> !reports_error(#[trigger] ls[j]) {
            assert forall|j: int| 0 <= j < ls.drop_last().len() implies !reports_error(
                #[trigger] ls.drop_last()[j],
            ) by {
                assert(ls.drop_last()[j] == ls[j]);
            }
            assert(!reports_error(ls[ls.len() - 1]));
        }
    }
}

/// A failed run always reports between one and eight messages. When its output holds an error
/// line, the first message is that first error line, trimmed, whatever the log says.
pub proof fn law_error_messages(stderr: Seq<char>, stdout: Seq<char>, log: Option<Seq<char>>)
    ensures
        1 <= errors_of(stderr, stdout, log).len() <= 8,
        forall|j0: int|
            0 <= j0 < lines(combined(stderr, stdout)).len() && reports_error(
                #[trigger] lines(combined(stderr, stdout))[j0],
            ) && (forall|j: int|
                0 <= j < j0 ==> !reports_error(#[trigger] lines(combined(stderr, stdout))[j]))
                ==> errors_of(stderr, stdout, log)[0] == trim(lines(combined(stderr, stdout))[j0]),
{
    let ls = lines(combined(stderr, stdout));
    assert forall|j0: int|
        0 <= j0 < ls.len() && reports_error(#[trigger] ls[j0]) && (forall|j: int|
            0 <= j < j0 ==> !reports_error(#[trigger] ls[j])) implies errors_of(stderr, stdout, log)[0]
        == trim(ls[j0]) by {
        lemma_output_errors_first(ls, j0);
    }
    let e1 = output_errors(ls);
    if e1.len() == 0 && log is Some {
        let l = log->Some_0;
        let e2 = log_error_scan(lines(l)).0;
        if e2.len() == 0 {
            let e3 = truncate_to(tail_lines(last_n(lines(l), 15)), 5);
            assert(e3.len() <= 5);
        }
    }
}


proof fn lemma_log_scan_quiet(ls: Seq<Seq<char>>)
    ensures
        (forall|j: int| 0 <= j < ls.len() ==> !starts_with(#[trigger] ls[j], "! "@)) ==> log_error_scan(ls)
            == (Seq::<Seq<char>>::empty(), false),
    decreases ls.len(),
{
    if ls.len() > 0 {
        lemma_log_scan_quiet(ls.drop_last());
        if forall|j: int| 0 <= j < ls.len() ==> !starts_with(#[trigger] ls[j], "! "@) {
            assert forall|j: int| 0 <= j < ls.drop_last().len() implies !starts_with(
                #[trigger] ls.drop_last()[j],
                "! "@,
            ) by {
                assert(ls.drop_last()[j] == ls[j]);
            }
            assert(!starts_with(ls[ls.len() - 1], "! "@));
        }
    }
}

proof fn lemma_log_scan_first(ls: Seq<Seq<char>>, j0: int)
    requires
        0 <= j0 < ls.len(),
        starts_with(ls[j0], "! "@),
        forall|j: int| 0 <= j < j0 ==> !starts_with(#[trigger] ls[j], "! "@),
    ensures
        log_error_scan(ls).0.len() > 0,
        log_error_scan(ls).0[0] == trim(ls[j0]),
    decreases ls.len(),
{
    let d = ls.drop_last();
    if j0 < ls.len() - 1 {
        assert forall|j: int| 0 <= j < j0 implies !starts_with(#[trigger] d[j], "! "@) by {
            assert(d[j] == ls[j]);
        }
        assert(d[j0] == ls[j0]);
        lemma_log_scan_first(d, j0);
    } else {
        lemma_log_scan_quiet(d);
        assert forall|j: int| 0 <= j < d.len() implies !starts_with(#[trigger] d[j], "! "@) by {
            assert(d[j] == ls[j]);
        }
        assert(ls.last() == ls[j0]);
    }
}

/// When the output holds no error line, the log is read: if it holds a `! ` line, the first
/// message is the first such line, trimmed.
pub proof fn law_log_error_first(stderr: Seq<char>, stdout: Seq<char>, log: Seq<char>, j0: int)
    requires
        forall|j: int|
            0 <= j < lines(combined(stderr, stdout)).len() ==> !reports_error(
                #[trigger] lines(combined(stderr, stdout))[j],
            ),
        0 <= j0 < lines(log).len(),
        starts_with(lines(log)[j0], "! "@),
        forall|j: int| 0 <= j < j0 ==> !starts_with(#[trigger] lines(log)[j], "! "@),
    ensures
        errors_of(stderr, stdout, Some(log))[0] == trim(lines(log)[j0]),
{
    lemma_no_output_errors(lines(combined(stderr, stdout)));
    lemma_log_scan_first(lines(log), j0);
}

} // verus!
