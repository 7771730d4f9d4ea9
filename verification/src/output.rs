//! What the output panel shows after a build, and applying a one-line correction.
use vstd::prelude::*;
use vstd::utf8::decode_utf8;

use crate::pattern::{regex_captures, regex_captures_spec, spans_in};
use crate::strings::{
    chars_of, contains, contains_exec, copy_range, decimal, decimal_string, find_char, join,
    lines, parse_usize, parse_usize_spec, split_lines, starts_with, starts_with_exec,
    string_from_chars, trim, trim_exec, views, vviews,
};
use crate::text::{lemma_utf8_facts, strictly_sorted, substr, utf8};
use crate::types::CompileStatus;
use crate::compiler::{CompileEvent, EventView};

verus! {

/// The pattern of a line reference in LaTeX's messages: `l.` and a line number.
pub open spec fn line_pattern() -> Seq<char> {
    "l\\.(\\d+)"@
}

/// The line number that captures `caps` of the line-reference pattern give in `line_ref`: the
/// text of group 1, read as a number.
pub open spec fn ref_number_spec(line_ref: Seq<char>, caps: Option<Seq<Option<(usize, usize)>>>) -> Option<nat> {
    match caps {
        Some(c) => if c.len() > 1 && c[1] is Some {
            parse_usize_spec(
                decode_utf8(
                    utf8(line_ref).subrange(c[1]->Some_0.0 as int, c[1]->Some_0.1 as int),
                ),
            )
        } else {
            None
        },
        None => None,
    }
}

/// The line number in a `l.` reference line, when the pattern's number group matched and parses.
pub open spec fn ref_line_number(line_ref: Seq<char>) -> Option<nat> {
    ref_number_spec(line_ref, regex_captures_spec(line_pattern(), line_ref))
}

/// What a reference line shows after its first space, trimmed (empty without a space).
pub open spec fn context_of(line_ref: Seq<char>) -> Seq<char> {
    let p = find_char(line_ref, ' ', 0);
    if p < line_ref.len() {
        trim(line_ref.subrange(p, line_ref.len() as int))
    } else {
        seq![]
    }
}

/// Line `n` of the document (line 1 for `n == 0`), or empty past the end.
pub open spec fn source_line(text: Seq<char>, n: nat) -> Seq<char> {
    let idx = if n >= 1 {
        n - 1
    } else {
        0
    };
    if idx < lines(text).len() {
        lines(text)[idx]
    } else {
        seq![]
    }
}

/// The error code of a `"! "` message: the rest of the line, trimmed.
pub open spec fn err_code(entry: Seq<char>) -> Seq<char> {
    trim(entry.subrange(2, entry.len() as int))
}

/// An output-panel line for one error.
pub open spec fn error_display(line_num: nat, syntax: Seq<char>, code: Seq<char>) -> Seq<char> {
    if syntax.len() > 0 {
        "\u{00D7} Error[line "@ + decimal(line_num) + "]: "@ + syntax + " "@ + code
    } else {
        "\u{00D7} Error: "@ + code
    }
}

/// From message `j` on: the output-panel lines for the `"! "` messages (each with the `"l."`
/// line after it, if any), and the line numbers those references give.
pub open spec fn report_from(errs: Seq<Seq<char>>, text: Seq<char>, j: int) -> (
    Seq<Seq<char>>,
    Seq<usize>,
)
    decreases errs.len() - j,
{
    if j < 0 || j >= errs.len() {
        (seq![], seq![])
    } else if !starts_with(errs[j], "! "@) {
        report_from(errs, text, j + 1)
    } else {
        let has_ref = j + 1 < errs.len() && starts_with(errs[j + 1], "l."@);
        let num = if has_ref {
            ref_line_number(errs[j + 1])
        } else {
            None
        };
        let line_num: nat = match num {
            Some(n) => n,
            None => 0,
        };
        let ctx = if has_ref {
            context_of(errs[j + 1])
        } else {
            seq![]
        };
        let src = source_line(text, line_num);
        let syntax = if src.len() > 0 {
            src
        } else {
            ctx
        };
        let d = error_display(line_num, syntax, err_code(errs[j]));
        let rest = report_from(errs, text, if has_ref { j + 2 } else { j + 1 });
        (
            seq![d] + rest.0,
            (match num {
                Some(n) => seq![n as usize],
                None => seq![],
            }) + rest.1,
        )
    }
}

/// The message that shows that LaTeX itself is missing.
pub open spec fn missing_compiler_note() -> Seq<char> {
    "was not found. Is a LaTeX distribution (MiKTeX/TeX Live) installed?"@
}

/// What the output panel shows for a failed build.
pub struct FailureReport {
    /// The error messages joined by newlines.
    pub error_text: String,
    /// One line per LaTeX error.
    pub messages: Vec<String>,
    /// The document lines the errors point at, ascending, each once.
    pub error_lines: Vec<usize>,
    /// The failure says that LaTeX is not installed.
    pub missing_compiler: bool,
}

/// The index of the first `c` in `s` at or after `i`.
fn find_char_exec(s: &[char], c: char, i: usize) -> (r: usize)
    requires
        i <= s@.len(),
    ensures
        r == find_char(s@, c, i as int),
{
    let mut k = i;
    while k < s.len() && s[k] != c
        invariant
            i <= k <= s@.len(),
            find_char(s@, c, k as int) == find_char(s@, c, i as int),
        decreases s@.len() - k,
    {
        k = k + 1;
    }
    k
}

/// Inserts `x` into a strictly increasing vector unless it is there already.
fn insert_sorted(v: &mut Vec<usize>, x: usize)
    requires
        strictly_sorted(old(v)@),
    ensures
        strictly_sorted(final(v)@),
        forall|y: usize| final(v)@.contains(y) <==> (old(v)@.contains(y) || y == x),
{
    let mut p: usize = 0;
    while p < v.len() && v[p] < x
        invariant
            0 <= p <= v@.len(),
            v@ == old(v)@,
            forall|k: int| 0 <= k < p ==> v@[k] < x,
        decreases v@.len() - p,
    {
        p = p + 1;
    }
    if p < v.len() && v[p] == x {
        assert(v@[p as int] == x);
        return;
    }
    let ghost before = v@;
    v.insert(p, x);
    proof {
        assert(v@ == before.insert(p as int, x));
        assert(before == old(v)@);
        assert forall|y: usize| v@.contains(y) <==> (old(v)@.contains(y) || y == x) by {
            if v@.contains(y) {
                let k = choose|k: int| 0 <= k < v@.len() && v@[k] == y;
                if k < p {
                    assert(before[k] == y);
                } else if k > p {
                    assert(before[k - 1] == y);
                }
            }
            if before.contains(y) {
                let k = choose|k: int| 0 <= k < before.len() && before[k] == y;
                if k < p {
                    assert(v@[k] == y);
                } else {
                    assert(v@[k + 1] == y);
                }
            }
            if y == x {
                assert(v@[p as int] == x);
            }
        }
    }
}

/// The line number that the captures `caps` of the line-reference pattern give in `line_ref`
/// (see `ref_number_spec`).
pub fn ref_number_from(line_ref: &str, caps: Option<Vec<Option<(usize, usize)>>>) -> (r: Option<usize>)
    requires
        caps matches Some(c) ==> spans_in(line_ref@, c@),
    ensures
        match r {
            Some(n) => ref_number_spec(line_ref@, match caps {
                Some(c) => Some(c@),
                None => None,
            }) == Some(n as nat),
            None => ref_number_spec(line_ref@, match caps {
                Some(c) => Some(c@),
                None => None,
            }) is None,
        },
{
    match caps {
        Some(c) => {
            if c.len() > 1 {
                match c[1] {
                    Some((s, e)) => {
                        proof {
                            assert(c@[1] matches Some((s, e)) ==> s <= e <= utf8(line_ref@).len());
                        }
                        let t = substr(line_ref, s, e);
                        proof {
                            lemma_utf8_facts(t@);
                        }
                        let tc = chars_of(t);
                        parse_usize(tc.as_slice())
                    },
                    None => None,
                }
            } else {
                None
            }
        },
        None => None,
    }
}

/// The line number a reference line gives, if its number parses.
fn ref_number(line_ref: &str) -> (r: Option<usize>)
    ensures
        match r {
            Some(n) => ref_line_number(line_ref@) == Some(n as nat),
            None => ref_line_number(line_ref@) is None,
        },
{
    let caps = regex_captures("l\\.(\\d+)", line_ref);
    ref_number_from(line_ref, caps)
}

/// The output-panel report of a failed build with messages `errors`, for document `text`:
/// one line per `"! "` message — "× Error[line N]: SOURCE CODE" when the message's `"l."`
/// reference (or, without one, the document's first line) shows source text, else
/// "× Error: CODE" — the referenced line numbers sorted without repeats, the messages joined by
/// newlines, and whether they say that LaTeX is not installed.
pub fn failure_report(errors: &Vec<String>, text: &str) -> (r: FailureReport)
    ensures
        r.error_text@ == join(views(errors@), seq!['\n']),
        views(r.messages@) == report_from(views(errors@), text@, 0).0,
        strictly_sorted(r.error_lines@),
        forall|y: usize|
            r.error_lines@.contains(y) <==> report_from(views(errors@), text@, 0).1.contains(y),
        r.missing_compiler == contains(join(views(errors@), seq!['\n']), missing_compiler_note()),
{
    let ghost ev = views(errors@);
    let mut errs: Vec<Vec<char>> = Vec::new();
    let mut i: usize = 0;
    while i < errors.len()
        invariant
            ev == views(errors@),
            0 <= i <= errors@.len(),
            vviews(errs@) == ev.take(i as int),
        decreases errors@.len() - i,
    {
        let c = chars_of(errors[i].as_str());
        proof {
            assert(ev[i as int] == errors@[i as int]@);
            assert(c@ == errors@[i as int]@);
            assert(vviews(errs@.push(c)) =~= vviews(errs@).push(c@));
            assert(ev.take(i + 1) =~= ev.take(i as int).push(ev[i as int]));
        }
        errs.push(c);
        i = i + 1;
    }
    proof {
        assert(ev.take(errors@.len() as int) =~= ev);
    }
    let mut joined: Vec<char> = Vec::new();
    let mut k: usize = 0;
    while k < errs.len()
        invariant
            ev == vviews(errs@),
            0 <= k <= errs@.len(),
            joined@ == join(ev.take(k as int), seq!['\n']),
        decreases errs@.len() - k,
    {
        proof {
            assert(ev.take(k + 1).drop_last() =~= ev.take(k as int));
            assert(ev.take(k + 1).last() == errs@[k as int]@);
        }
        let ghost before = joined@;
        if k > 0 {
            joined.push('\n');
        }
        let mut q: usize = 0;
        while q < errs[k].len()
            invariant
                0 <= k < errs@.len(),
                0 <= q <= errs@[k as int]@.len(),
                joined@ == (if k > 0 {
                    before + seq!['\n']
                } else {
                    before
                }) + errs@[k as int]@.take(q as int),
            decreases errs@[k as int]@.len() - q,
        {
            joined.push(errs[k][q]);
            proof {
                assert(errs@[k as int]@.take(q + 1) =~= errs@[k as int]@.take(q as int).push(
                    errs@[k as int]@[q as int],
                ));
            }
            q = q + 1;
        }
        proof {
            assert(errs@[k as int]@.take(q as int) =~= errs@[k as int]@);
            if k == 0 {
                assert(ev.take(1) =~= seq![ev[0]]);
                assert(before =~= Seq::<char>::empty());
            }
        }
        k = k + 1;
    }
    proof {
        assert(ev.take(errs@.len() as int) =~= ev);
    }
    let note = chars_of("was not found. Is a LaTeX distribution (MiKTeX/TeX Live) installed?");
    let missing = contains_exec(joined.as_slice(), note.as_slice());
    let error_text = string_from_chars(joined.as_slice(), 0, joined.len());
    proof {
        assert(joined@.subrange(0, joined@.len() as int) =~= joined@);
    }
    let tc = chars_of(text);
    let doc_lines = split_lines(tc.as_slice());
    let bang = chars_of("! ");
    let lref = chars_of("l.");
    let mut messages: Vec<String> = Vec::new();
    let mut nums: Vec<usize> = Vec::new();
    let ghost all = report_from(ev, text@, 0);
    let ghost mut got_nums: Seq<usize> = Seq::empty();
    let mut j: usize = 0;
    while j < errs.len()
        invariant
            ev == vviews(errs@),
            ev == views(errors@),
            errs@.len() == errors@.len(),
            vviews(doc_lines@) == lines(text@),
            bang@ == "! "@,
            lref@ == "l."@,
            all == report_from(ev, text@, 0),
            0 <= j <= errs@.len() + 1,
            views(messages@) + report_from(ev, text@, j as int).0 == all.0,
            got_nums + report_from(ev, text@, j as int).1 == all.1,
            strictly_sorted(nums@),
            forall|y: usize| nums@.contains(y) <==> got_nums.contains(y),
        decreases errs@.len() + 1 - j,
    {
        let entry = errs[j].as_slice();
        if !starts_with_exec(entry, bang.as_slice()) {
            j = j + 1;
        } else {
            let has_ref = j + 1 < errs.len() && starts_with_exec(
                errs[j + 1].as_slice(),
                lref.as_slice(),
            );
            let mut line_num: usize = 0;
            let mut ctx: Vec<char> = Vec::new();
            let ghost num: Option<nat> = None;
            if has_ref {
                let r = ref_number(errors[j + 1].as_str());
                proof {
                    assert(ev[j + 1] == errors@[j + 1]@);
                    num = ref_line_number(ev[j + 1]);
                }
                if let Some(n) = r {
                    line_num = n;
                    insert_sorted(&mut nums, n);
                    proof {
                        let g2 = got_nums + seq![n];
                        assert forall|y: usize| nums@.contains(y) <==> g2.contains(y) by {
                            if g2.contains(y) {
                                let k = choose|k: int| 0 <= k < g2.len() && g2[k] == y;
                                if k < got_nums.len() {
                                    assert(got_nums[k] == y);
                                }
                            }
                            if got_nums.contains(y) {
                                let k = choose|k: int| 0 <= k < got_nums.len() && got_nums[k] == y;
                                assert(g2[k] == y);
                            }
                            if y == n {
                                assert(g2[got_nums.len() as int] == y);
                            }
                        }
                    }
                }
                let line_ref = errs[j + 1].as_slice();
                let p = find_char_exec(line_ref, ' ', 0);
                if p < line_ref.len() {
                    let tail = copy_range(line_ref, p, line_ref.len());
                    ctx = trim_exec(tail.as_slice());
                }
            }
            let idx = if line_num >= 1 {
                line_num - 1
            } else {
                0
            };
            let src: Vec<char> = if idx < doc_lines.len() {
                copy_range(doc_lines[idx].as_slice(), 0, doc_lines[idx].len())
            } else {
                Vec::new()
            };
            proof {
                if idx < doc_lines@.len() {
                    assert(doc_lines@[idx as int]@.subrange(0, doc_lines@[idx as int]@.len() as int)
                        =~= doc_lines@[idx as int]@);
                }
            }
            proof {
                reveal_strlit("! ");
            }
            let code_src = copy_range(entry, 2, entry.len());
            let code = trim_exec(code_src.as_slice());
            let syntax: &Vec<char> = if src.len() > 0 {
                &src
            } else {
                &ctx
            };
            let d = if syntax.len() > 0 {
                String::from_str("\u{00D7} Error[line ").concat(
                    decimal_string(line_num as u64).as_str(),
                ).concat("]: ").concat(
                    string_from_chars(syntax.as_slice(), 0, syntax.len()).as_str(),
                ).concat(" ").concat(string_from_chars(code.as_slice(), 0, code.len()).as_str())
            } else {
                String::from_str("\u{00D7} Error: ").concat(
                    string_from_chars(code.as_slice(), 0, code.len()).as_str(),
                )
            };
            proof {
                assert(syntax@.subrange(0, syntax@.len() as int) =~= syntax@);
                assert(code@.subrange(0, code@.len() as int) =~= code@);
                let rest_j = report_from(ev, text@, j as int);
                let nxt = if has_ref {
                    j + 2
                } else {
                    j + 1
                };
                assert(rest_j.0 == seq![d@] + report_from(ev, text@, nxt).0);
                assert(views(messages@.push(d)) =~= views(messages@).push(d@));
                assert(views(messages@).push(d@) + report_from(ev, text@, nxt).0 =~= views(
                    messages@,
                ) + rest_j.0);
                let add = match num {
                    Some(n) => seq![n as usize],
                    None => Seq::<usize>::empty(),
                };
                assert(rest_j.1 == add + report_from(ev, text@, nxt).1);
                assert((got_nums + add) + report_from(ev, text@, nxt).1 =~= got_nums + rest_j.1);
                if add.len() == 0 {
                    assert(got_nums + add =~= got_nums);
                }
                got_nums = got_nums + add;
            }
            messages.push(d);
            j = if has_ref {
                j + 2
            } else {
                j + 1
            };
        }
    }
    proof {
        assert(report_from(ev, text@, j as int).0 == Seq::<Seq<char>>::empty());
        assert(views(messages@) =~= all.0);
        assert(got_nums =~= all.1);
    }
    FailureReport { error_text, messages, error_lines: nums, missing_compiler: missing }
}

/// `n` in at least two digits (`{:02}`).
pub open spec fn pad2(n: nat) -> Seq<char> {
    if n < 10 {
        seq!['0'] + decimal(n)
    } else {
        decimal(n)
    }
}

/// A build time: seconds with hundredths ("2.05s") from one second on, else milliseconds ("350ms").
pub open spec fn duration_text(secs: nat, millis: nat) -> Seq<char> {
    if secs > 0 {
        decimal(secs) + "."@ + pad2(millis / 10) + "s"@
    } else {
        decimal(millis) + "ms"@
    }
}

/// The output-panel line for a successful build that took `secs` seconds and `millis`
/// milliseconds more.
pub fn success_message(secs: u64, millis: u32) -> (r: String)
    ensures
        r@ == "\u{221A} Compilation succeeded in "@ + duration_text(secs as nat, millis as nat),
{
    let dur = if secs > 0 {
        let h = millis / 10;
        let hs = if h < 10 {
            proof {
                reveal_strlit("0");
            }
            let z = String::from_str("0").concat(decimal_string(h as u64).as_str());
            assert(z@ =~= seq!['0'] + decimal(h as nat));
            z
        } else {
            decimal_string(h as u64)
        };
        let d = decimal_string(secs).concat(".").concat(hs.as_str()).concat("s");
        assert(hs@ == pad2((millis / 10) as nat));
        assert(d@ =~= duration_text(secs as nat, millis as nat));
        d
    } else {
        decimal_string(millis as u64).concat("ms")
    };
    let r = String::from_str("\u{221A} Compilation succeeded in ").concat(dur.as_str());
    assert(r@ =~= "\u{221A} Compilation succeeded in "@ + duration_text(secs as nat, millis as nat));
    r
}

/// The lines `ls`, each followed by a newline, with line number `line` (1-based) replaced by
/// `repl`.
pub open spec fn lines_with_replacement(ls: Seq<Seq<char>>, line: int, repl: Seq<char>) -> Seq<
    char,
>
    decreases ls.len(),
{
    if ls.len() == 0 {
        seq![]
    } else {
        lines_with_replacement(ls.drop_last(), line, repl) + (if ls.len() == line {
            repl
        } else {
            ls.last()
        }) + seq!['\n']
    }
}

/// `text` with its line number `line` (1-based) replaced by `repl`, keeping whether the text
/// ends in a newline; `None` when there is no such line.
pub open spec fn corrected_spec(text: Seq<char>, line: int, repl: Seq<char>) -> Option<Seq<char>> {
    let ls = lines(text);
    if 0 < line <= ls.len() {
        let t = lines_with_replacement(ls, line, repl);
        Some(
            if !(text.len() > 0 && text.last() == '\n') && t.len() > 0 {
                t.drop_last()
            } else {
                t
            },
        )
    } else {
        None
    }
}

/// The document after a suggested correction of one line (see `corrected_spec`).
pub fn corrected_text(text: &str, line: usize, replacement: &str) -> (r: Option<String>)
    ensures
        match r {
            Some(t) => corrected_spec(text@, line as int, replacement@) == Some(t@),
            None => corrected_spec(text@, line as int, replacement@) is None,
        },
{
    let tc = chars_of(text);
    let ls = split_lines(tc.as_slice());
    let ghost lv = vviews(ls@);
    if !(line > 0 && line <= ls.len()) {
        return None;
    }
    let rc = chars_of(replacement);
    let mut out: Vec<char> = Vec::new();
    let mut i: usize = 0;
    while i < ls.len()
        invariant
            lv == vviews(ls@),
            0 <= i <= ls@.len(),
            rc@ == replacement@,
            out@ == lines_with_replacement(lv.take(i as int), line as int, rc@),
        decreases ls@.len() - i,
    {
        proof {
            assert(lv.take(i + 1).drop_last() =~= lv.take(i as int));
            assert(lv.take(i + 1).last() == ls@[i as int]@);
        }
        let ghost before = out@;
        let piece: &Vec<char> = if i + 1 == line {
            &rc
        } else {
            &ls[i]
        };
        let mut q: usize = 0;
        while q < piece.len()
            invariant
                0 <= q <= piece@.len(),
                out@ == before + piece@.take(q as int),
            decreases piece@.len() - q,
        {
            out.push(piece[q]);
            proof {
                assert(piece@.take(q + 1) =~= piece@.take(q as int).push(piece@[q as int]));
            }
            q = q + 1;
        }
        out.push('\n');
        proof {
            assert(piece@.take(q as int) =~= piece@);
            assert(out@ =~= before + piece@ + seq!['\n']);
        }
        i = i + 1;
    }
    proof {
        assert(lv.take(ls@.len() as int) =~= lv);
    }
    let ends_nl = tc.len() > 0 && tc[tc.len() - 1] == '\n';
    if !ends_nl && out.len() > 0 {
        out.pop();
    }
    Some(string_from_chars(out.as_slice(), 0, out.len()))
}

/// What the status bar adds for the latest build's status.
pub open spec fn build_status_suffix(status: CompileStatus) -> Seq<char> {
    match status {
        CompileStatus::Idle => ""@,
        CompileStatus::Running => " | Compiling\u{2026}"@,
        CompileStatus::Success => " | OK"@,
        CompileStatus::Failed => " | Error"@,
    }
}

/// The status bar of a document: its file (or "Untitled"), a dot when it has unsaved changes,
/// the cursor's line and 1-based column, the latest message and the build status.
pub open spec fn status_line_spec(
    path: Option<Seq<char>>,
    dirty: bool,
    line: nat,
    col: nat,
    message: Seq<char>,
    status: CompileStatus,
) -> Seq<char> {
    (match path {
        Some(p) => p,
        None => "Untitled"@,
    }) + (if dirty {
        " \u{2022}"@
    } else {
        ""@
    }) + " | Ln "@ + decimal(line) + ", Col "@ + decimal(col + 1) + " | "@ + message
        + build_status_suffix(status)
}

/// The status bar text (see `status_line_spec`); `col` is the 0-based column.
pub fn status_line(
    path: Option<&str>,
    dirty: bool,
    line: usize,
    col: usize,
    message: &str,
    status: CompileStatus,
) -> (r: String)
    requires
        col < usize::MAX,
    ensures
        r@ == status_line_spec(
            match path {
                Some(p) => Some(p@),
                None => None,
            },
            dirty,
            line as nat,
            col as nat,
            message@,
            status,
        ),
{
    let p = match path {
        Some(p) => String::from_str(p),
        None => String::from_str("Untitled"),
    };
    let d = if dirty {
        " \u{2022}"
    } else {
        ""
    };
    let suffix = match status {
        CompileStatus::Idle => "",
        CompileStatus::Running => " | Compiling\u{2026}",
        CompileStatus::Success => " | OK",
        CompileStatus::Failed => " | Error",
    };
    let ln = decimal_string(line as u64);
    let cn = decimal_string((col + 1) as u64);
    p.concat(d).concat(" | Ln ").concat(ln.as_str()).concat(", Col ").concat(cn.as_str()).concat(
        " | ",
    ).concat(message).concat(suffix)
}

/// The status-bar message a build event sets, if any.
pub open spec fn build_status_spec(event: EventView) -> Option<Seq<char>> {
    match event {
        EventView::Started => Some("Compiling\u{2026}"@),
        EventView::Warnings(_) => None,
        EventView::Success(_) => Some("Compilation succeeded"@),
        EventView::Failure(_) => Some("Compilation failed"@),
    }
}

/// The status-bar message a build event sets: the build started, succeeded or failed; warnings
/// leave the message as it is.
pub fn build_status_text(event: &CompileEvent) -> (r: Option<&'static str>)
    ensures
        match r {
            Some(m) => build_status_spec(event@) == Some(m@),
            None => build_status_spec(event@) is None,
        },
{
    match event {
        CompileEvent::Started => Some("Compiling\u{2026}"),
        CompileEvent::Warnings(_) => None,
        CompileEvent::Success(_) => Some("Compilation succeeded"),
        CompileEvent::Failure(_) => Some("Compilation failed"),
    }
}

} // verus!
