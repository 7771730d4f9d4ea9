//! Editing commands on the cursor's line: which sectioning heading it is, turning it into
//! another heading or plain text, numbering it or not; and telling whether a document is an
//! article.
//!
//! A heading command is a backslash, one of the names `part`, `chapter`, `section`,
//! `subsection`, `subsubsection`, `paragraph`, `subparagraph`, an optional `*`, and `{`. No name
//! is a prefix of another, so at most one name can follow a given backslash.
use vstd::prelude::*;
use vstd::utf8::decode_utf8;

use crate::buffer::EditorBuffer;
use crate::types::EditView;
use crate::pattern::{regex_captures, regex_captures_spec, spans_in};
use crate::strings::{
    chars_of, copy_range, find_char, occurs_at, occurs_at_exec, starts_with, string_from_chars, trim,
    trim_exec,
};
use crate::text::{
    at_char_start, char_offset, char_start_at_or_before, lemma_after_ascii, lemma_char_offset_from,
    lemma_char_offset_monotone, nth_char_offset, lemma_utf8_concat, lemma_utf8_facts, lemma_utf8_subrange,
    splice, substr, utf8,
};
use crate::strings::{lemma_skip_ws, lemma_skip_ws_back};

verus! {

/// The sectioning command names, in the order they are tried.
pub open spec fn heading_names() -> Seq<Seq<char>> {
    seq![
        "part"@,
        "chapter"@,
        "section"@,
        "subsection"@,
        "subsubsection"@,
        "paragraph"@,
        "subparagraph"@,
    ]
}

/// The first name, from number `k` on, that occurs in `s` at `i`.
pub open spec fn name_from(s: Seq<char>, i: int, k: int) -> Option<int>
    decreases 7 - k,
{
    if k < 0 || k >= 7 {
        None
    } else if occurs_at(s, heading_names()[k], i) {
        Some(k)
    } else {
        name_from(s, i, k + 1)
    }
}

proof fn lemma_name_from(s: Seq<char>, i: int, k0: int)
    requires
        0 <= k0,
    ensures
        name_from(s, i, k0) matches Some(k) ==> k0 <= k < 7 && occurs_at(s, heading_names()[k], i),
    decreases 7 - k0,
{
    if k0 < 7 && !occurs_at(s, heading_names()[k0], i) {
        lemma_name_from(s, i, k0 + 1);
    }
}

/// Which part of a heading command is looked for.
#[derive(Debug, Clone, Copy, PartialEq, Eq, Structural)]
pub enum HeadingForm {
    /// `\name{` or `\name*{`.
    Any,
    /// `\name{...}` or `\name*{...}` with a closing brace.
    Full,
    /// `\name{` without a star.
    Plain,
    /// `\name*{`.
    Starred,
}

/// The heading command of the given form starting at `p`: its name's number, the position just
/// after the name, and the position of its `{` (for `Full`, the `}` is found by `find_char`).
pub open spec fn form_at(s: Seq<char>, p: int, f: HeadingForm) -> Option<(int, int, int)> {
    if p < 0 || p >= s.len() || s[p] != '\\' {
        None
    } else {
        match name_from(s, p + 1, 0) {
            None => None,
            Some(k) => {
                let e = p + 1 + heading_names()[k].len();
                let starred = e + 1 < s.len() && s[e] == '*' && s[e + 1] == '{';
                let plain = e < s.len() && s[e] == '{';
                match f {
                    HeadingForm::Any => if starred {
                        Some((k, e, e + 1))
                    } else if plain {
                        Some((k, e, e))
                    } else {
                        None
                    },
                    HeadingForm::Full => if starred && find_char(s, '}', e + 2) < s.len() {
                        Some((k, e, e + 1))
                    } else if plain && find_char(s, '}', e + 1) < s.len() {
                        Some((k, e, e))
                    } else {
                        None
                    },
                    HeadingForm::Plain => if plain {
                        Some((k, e, e))
                    } else {
                        None
                    },
                    HeadingForm::Starred => if starred {
                        Some((k, e, e + 1))
                    } else {
                        None
                    },
                }
            },
        }
    }
}

/// The leftmost heading command of the given form at or after `i`, with its start.
pub open spec fn first_form(s: Seq<char>, i: int, f: HeadingForm) -> Option<(int, int, int, int)>
    decreases s.len() - i,
{
    if i < 0 || i >= s.len() {
        None
    } else {
        match form_at(s, i, f) {
            Some((k, e, b)) => Some((i, k, e, b)),
            None => first_form(s, i + 1, f),
        }
    }
}

proof fn lemma_find_char(s: Seq<char>, c: char, i: int)
    requires
        0 <= i,
    ensures
        i <= s.len() ==> i <= find_char(s, c, i) <= s.len(),
        find_char(s, c, i) < s.len() ==> s[find_char(s, c, i)] == c,
    decreases s.len() - i,
{
    if i < s.len() && s[i] != c {
        lemma_find_char(s, c, i + 1);
    }
}

/// A heading command found has its brace inside the text, after the name.
proof fn lemma_first_form(s: Seq<char>, i: int, f: HeadingForm)
    requires
        0 <= i,
    ensures
        first_form(s, i, f) matches Some((p, k, e, b)) ==> {
            &&& i <= p < e <= b < s.len()
            &&& 0 <= k < 7
            &&& s[b] == '{'
            &&& e == p + 1 + heading_names()[k].len()
            &&& (b == e || (b == e + 1 && s[e] == '*'))
            &&& f == HeadingForm::Plain ==> b == e
            &&& f == HeadingForm::Starred ==> b == e + 1
            &&& f == HeadingForm::Full ==> b + 1 <= find_char(s, '}', b + 1) < s.len()
        },
    decreases s.len() - i,
{
    if 0 <= i < s.len() {
        lemma_name_from(s, i + 1, 0);
        if let Some(k) = name_from(s, i + 1, 0) {
            let e = i + 1 + heading_names()[k].len();
            lemma_find_char(s, '}', e + 1);
            lemma_find_char(s, '}', e + 2);
        }
        if form_at(s, i, f) is None {
            lemma_first_form(s, i + 1, f);
        }
    }
}

/// Where `a` occurs, a name differing from it at some position inside both does not.
proof fn lemma_name_differs(s: Seq<char>, i: int, a: Seq<char>, b: Seq<char>, q: int)
    requires
        occurs_at(s, a, i),
        0 <= q < a.len(),
        q < b.len(),
        a[q] != b[q],
    ensures
        !occurs_at(s, b, i),
{
    if occurs_at(s, b, i) {
        assert(s.subrange(i, i + a.len())[q] == s[i + q]);
        assert(s.subrange(i, i + b.len())[q] == s[i + q]);
    }
}

/// Unfolding `name_from` from `k` up to `k0`, past names that do not occur.
proof fn lemma_name_from_reaches(s: Seq<char>, i: int, k: int, k0: int)
    requires
        0 <= k <= k0 < 7,
        occurs_at(s, heading_names()[k0], i),
        forall|j: int| k <= j < k0 ==> !occurs_at(s, #[trigger] heading_names()[j], i),
    ensures
        name_from(s, i, k) == Some(k0),
    decreases k0 - k,
{
    if k < k0 {
        lemma_name_from_reaches(s, i, k + 1, k0);
    }
}

/// Every sectioning command is recognised by its own name: a (trimmed) line that begins with a
/// backslash, one of `part`, `chapter`, `section`, `subsection`, `subsubsection`, `paragraph`,
/// `subparagraph`, and `{` or `*{` holds a heading command at its start, and it is that name.
pub proof fn law_heading_names_detected(t: Seq<char>, n: Seq<char>)
    requires
        n == "part"@ ||
        n == "chapter"@ ||
        n == "section"@ ||
        n == "subsection"@ ||
        n == "subsubsection"@ ||
        n == "paragraph"@ ||
        n == "subparagraph"@,
        starts_with(t, "\\"@ + n + "{"@) || starts_with(t, "\\"@ + n + "*{"@),
    ensures
        first_form(t, 0, HeadingForm::Any) matches Some((p, k, _, _)) && p == 0 && 0 <= k < 7
            && heading_names()[k] == n,
{
    reveal_strlit("part");
    reveal_strlit("chapter");
    reveal_strlit("section");
    reveal_strlit("subsection");
    reveal_strlit("subsubsection");
    reveal_strlit("paragraph");
    reveal_strlit("subparagraph");
    reveal_strlit("\\");
    reveal_strlit("{");
    reveal_strlit("*{");
    let k0: int = if n == heading_names()[0] {
        0
    } else if n == heading_names()[1] {
        1
    } else if n == heading_names()[2] {
        2
    } else if n == heading_names()[3] {
        3
    } else if n == heading_names()[4] {
        4
    } else if n == heading_names()[5] {
        5
    } else {
        6
    };
    assert(heading_names()[k0] == n);
    let w = if starts_with(t, "\\"@ + n + "{"@) {
        "\\"@ + n + "{"@
    } else {
        "\\"@ + n + "*{"@
    };
    assert(t.subrange(0, w.len() as int) == w);
    assert(t.subrange(1, 1 + n.len() as int) =~= w.subrange(1, 1 + n.len() as int));
    assert(w.subrange(1, 1 + n.len() as int) =~= n);
    assert(occurs_at(t, n, 1));
    assert(t[0] == w[0]);
    assert(t[1 + n.len() as int] == w[1 + n.len() as int]);
    if w.len() == n.len() + 3 {
        assert(t[2 + n.len() as int] == w[2 + n.len() as int]);
    }
    assert forall|j: int| 0 <= j < k0 implies !occurs_at(t, #[trigger] heading_names()[j], 1) by {
        if k0 == 0 {

        } else if k0 == 1 {
            lemma_name_differs(t, 1, n, heading_names()[0], 0);
        } else if k0 == 2 {
            lemma_name_differs(t, 1, n, heading_names()[0], 0);
            lemma_name_differs(t, 1, n, heading_names()[1], 0);
        } else if k0 == 3 {
            lemma_name_differs(t, 1, n, heading_names()[0], 0);
            lemma_name_differs(t, 1, n, heading_names()[1], 0);
            lemma_name_differs(t, 1, n, heading_names()[2], 1);
        } else if k0 == 4 {
            lemma_name_differs(t, 1, n, heading_names()[0], 0);
            lemma_name_differs(t, 1, n, heading_names()[1], 0);
            lemma_name_differs(t, 1, n, heading_names()[2], 1);
            lemma_name_differs(t, 1, n, heading_names()[3], 4);
        } else if k0 == 5 {
            lemma_name_differs(t, 1, n, heading_names()[0], 3);
            lemma_name_differs(t, 1, n, heading_names()[1], 0);
            lemma_name_differs(t, 1, n, heading_names()[2], 0);
            lemma_name_differs(t, 1, n, heading_names()[3], 0);
            lemma_name_differs(t, 1, n, heading_names()[4], 0);
        } else if k0 == 6 {
            lemma_name_differs(t, 1, n, heading_names()[0], 0);
            lemma_name_differs(t, 1, n, heading_names()[1], 0);
            lemma_name_differs(t, 1, n, heading_names()[2], 1);
            lemma_name_differs(t, 1, n, heading_names()[3], 3);
            lemma_name_differs(t, 1, n, heading_names()[4], 3);
            lemma_name_differs(t, 1, n, heading_names()[5], 0);
        }
    }
    lemma_name_from_reaches(t, 1, 0, k0);
}

/// The leftmost heading command from `i` is the one recognised at its start.
proof fn lemma_first_form_at(s: Seq<char>, i: int, f: HeadingForm)
    ensures
        first_form(s, i, f) matches Some((p, k, e, b)) ==> form_at(s, p, f) == Some((k, e, b)),
    decreases s.len() - i,
{
    if 0 <= i < s.len() && form_at(s, i, f) is None {
        lemma_first_form_at(s, i + 1, f);
    }
}

/// A heading command found in a line is a backslash, one of the sectioning names `part`,
/// `chapter`, `section`, `subsection`, `subsubsection`, `paragraph`, `subparagraph` (the one
/// reported), and then `{` or `*{`.
pub proof fn law_heading_found_is_command(t: Seq<char>, i: int, f: HeadingForm)
    requires
        0 <= i,
    ensures
        first_form(t, i, f) matches Some((p, k, e, b)) ==> {
            let m = t.subrange(p + 1, e);
            &&& i <= p < e <= b < t.len()
            &&& t[p] == '\\'
            &&& (m == "part"@ || m == "chapter"@ || m == "section"@ || m == "subsection"@ || m == "subsubsection"@ || m == "paragraph"@ || m == "subparagraph"@)
            &&& heading_names()[k] == m
            &&& t[b] == '{'
            &&& (b == e || (b == e + 1 && t[e] == '*'))
        },
{
    lemma_first_form(t, i, f);
    lemma_first_form_at(t, i, f);
    if let Some((p, k, e, b)) = first_form(t, i, f) {
        lemma_name_from(t, p + 1, 0);
        assert(name_from(t, p + 1, 0) == Some(k));
        assert(occurs_at(t, heading_names()[k], p + 1));
        let m = t.subrange(p + 1, e);
        assert(m == heading_names()[k]);
        assert(0 <= k < 7);
        if k == 0 { assert(m == "part"@); }
        else if k == 1 { assert(m == "chapter"@); }
        else if k == 2 { assert(m == "section"@); }
        else if k == 3 { assert(m == "subsection"@); }
        else if k == 4 { assert(m == "subsubsection"@); }
        else if k == 5 { assert(m == "paragraph"@); }
        else { assert(m == "subparagraph"@); }
    }
}

/// The heading of the cursor's line is recognised by its name whenever the trimmed line begins
/// with that sectioning command (see `law_heading_names_detected`).
pub proof fn law_current_heading_named(buf: EditorBuffer, n: Seq<char>)
    requires
        n == "part"@ ||
        n == "chapter"@ ||
        n == "section"@ ||
        n == "subsection"@ ||
        n == "subsubsection"@ ||
        n == "paragraph"@ ||
        n == "subparagraph"@,
        starts_with(trim(cursor_line(buf)), "\\"@ + n + "{"@) || starts_with(
            trim(cursor_line(buf)),
            "\\"@ + n + "*{"@,
        ),
    ensures
        current_heading_spec(buf) matches Some(k) && 0 <= k < 7 && heading_names()[k] == n,
{
    law_heading_names_detected(trim(cursor_line(buf)), n);
}

/// Start of the line holding byte `c`: just after the last newline before `c`, or 0.
pub open spec fn line_begin(b: Seq<u8>, c: int) -> int
    decreases c,
{
    if c <= 0 {
        0
    } else if c <= b.len() && b[c - 1] == 10u8 {
        c
    } else {
        line_begin(b, c - 1)
    }
}

/// End of the line holding byte `c`: the first newline at or after `c`, or the end.
pub open spec fn line_finish(b: Seq<u8>, c: int) -> int
    decreases b.len() - c,
{
    if c >= b.len() {
        b.len() as int
    } else if c >= 0 && b[c] == 10u8 {
        c
    } else {
        line_finish(b, c + 1)
    }
}

/// The cursor, clamped to the text.
pub open spec fn clamped(buf: EditorBuffer) -> int {
    if buf.cursor_view() < buf.bytes().len() {
        buf.cursor_view()
    } else {
        buf.bytes().len() as int
    }
}

/// The characters of the cursor's line (without its newline).
pub open spec fn cursor_line(buf: EditorBuffer) -> Seq<char> {
    let b = buf.bytes();
    decode_utf8(b.subrange(line_begin(b, clamped(buf)), line_finish(b, clamped(buf))))
}

/// The heading the cursor's line starts, as a name's number: the leftmost heading command in the
/// trimmed line.
pub open spec fn current_heading_spec(buf: EditorBuffer) -> Option<int> {
    match first_form(trim(cursor_line(buf)), 0, HeadingForm::Any) {
        Some((_, k, _, _)) => Some(k),
        None => None,
    }
}

proof fn lemma_line_begin(b: Seq<u8>, c: int)
    requires
        0 <= c <= b.len(),
    ensures
        0 <= line_begin(b, c) <= c,
        line_begin(b, c) > 0 ==> b[line_begin(b, c) - 1] == 10u8,
    decreases c,
{
    if c > 0 && b[c - 1] != 10u8 {
        lemma_line_begin(b, c - 1);
    }
}

proof fn lemma_line_finish(b: Seq<u8>, c: int)
    requires
        0 <= c <= b.len(),
    ensures
        c <= line_finish(b, c) <= b.len(),
        line_finish(b, c) < b.len() ==> b[line_finish(b, c)] == 10u8,
    decreases b.len() - c,
{
    if c < b.len() && b[c] != 10u8 {
        lemma_line_finish(b, c + 1);
    }
}

/// The exact names, as character vectors.
struct Names {
    v: Vec<Vec<char>>,
}

impl Names {
    spec fn ok(&self) -> bool {
        &&& self.v@.len() == 7
        &&& forall|k: int| 0 <= k < 7 ==> #[trigger] self.v@[k]@ == heading_names()[k]
    }

    fn new() -> (r: Self)
        ensures
            r.ok(),
    {
        let mut v: Vec<Vec<char>> = Vec::new();
        v.push(chars_of("part"));
        v.push(chars_of("chapter"));
        v.push(chars_of("section"));
        v.push(chars_of("subsection"));
        v.push(chars_of("subsubsection"));
        v.push(chars_of("paragraph"));
        v.push(chars_of("subparagraph"));
        Names { v }
    }

    /// `name_from(s, i, 0)`.
    fn name_at(&self, s: &[char], i: usize) -> (r: Option<usize>)
        requires
            self.ok(),
        ensures
            match r {
                Some(k) => name_from(s@, i as int, 0) == Some(k as int) && k < 7,
                None => name_from(s@, i as int, 0) is None,
            },
    {
        proof {
            lemma_name_from(s@, i as int, 0);
        }
        let mut k: usize = 0;
        while k < 7
            invariant
                self.ok(),
                0 <= k <= 7,
                name_from(s@, i as int, k as int) == name_from(s@, i as int, 0),
            decreases 7 - k,
        {
            if occurs_at_exec(s, self.v[k].as_slice(), i) {
                return Some(k);
            }
            k = k + 1;
        }
        None
    }

    /// `form_at(s, p, f)`.
    fn form_at_exec(&self, s: &[char], p: usize, f: HeadingForm) -> (r: Option<(usize, usize, usize)>)
        requires
            self.ok(),
        ensures
            match r {
                Some((k, e, b)) => form_at(s@, p as int, f) == Some((k as int, e as int, b as int))
                    && k < 7,
                None => form_at(s@, p as int, f) is None,
            },
    {
        let len = s.len();
        if p >= s.len() || s[p] != '\\' {
            return None;
        }
        let k = match self.name_at(s, p + 1) {
            Some(k) => k,
            None => return None,
        };
        proof {
            lemma_name_from(s@, p + 1, 0);
        }
        let e = p + 1 + self.v[k].len();
        let starred = e < len && e + 1 < len && s[e] == '*' && s[e + 1] == '{';
        let plain = e < len && s[e] == '{';
        match f {
            HeadingForm::Any => if starred {
                Some((k, e, e + 1))
            } else if plain {
                Some((k, e, e))
            } else {
                None
            },
            HeadingForm::Full => {
                if starred && find_char_exec(s, '}', e + 2) < len {
                    Some((k, e, e + 1))
                } else if plain && find_char_exec(s, '}', e + 1) < len {
                    Some((k, e, e))
                } else {
                    None
                }
            },
            HeadingForm::Plain => if plain {
                Some((k, e, e))
            } else {
                None
            },
            HeadingForm::Starred => if starred {
                Some((k, e, e + 1))
            } else {
                None
            },
        }
    }

    /// `first_form(s, 0, f)`.
    fn first_form_exec(&self, s: &[char], f: HeadingForm) -> (r: Option<(usize, usize, usize, usize)>)
        requires
            self.ok(),
        ensures
            match r {
                Some((p, k, e, b)) => first_form(s@, 0, f) == Some(
                    (p as int, k as int, e as int, b as int),
                ) && k < 7,
                None => first_form(s@, 0, f) is None,
            },
    {
        let mut i: usize = 0;
        while i < s.len()
            invariant
                self.ok(),
                0 <= i <= s@.len(),
                first_form(s@, i as int, f) == first_form(s@, 0, f),
            decreases s@.len() - i,
        {
            match self.form_at_exec(s, i, f) {
                Some((k, e, b)) => return Some((i, k, e, b)),
                None => {},
            }
            i = i + 1;
        }
        None
    }
}

/// The index of the first `c` in `s` at or after `i`.
fn find_char_exec(s: &[char], c: char, i: usize) -> (r: usize)
    ensures
        r == find_char(s@, c, i as int),
{
    let mut k = i;
    if k > s.len() {
        return s.len();
    }
    while k < s.len() && s[k] != c
        invariant
            i <= k <= s@.len(),
            find_char(s@, c, k as int) == find_char(s@, c, i as int),
        decreases s@.len() - k,
    {
        k = k + 1;
    }
    k
}

/// The byte range of the cursor's line and that line's text.
fn cursor_line_range(buf: &EditorBuffer) -> (r: (usize, usize, &str))
    requires
        at_char_start(buf.bytes(), clamped(*buf)),
    ensures
        r.0 == line_begin(buf.bytes(), clamped(*buf)),
        r.1 == line_finish(buf.bytes(), clamped(*buf)),
        r.0 <= clamped(*buf) <= r.1 <= buf.bytes().len(),
        at_char_start(buf.bytes(), r.0 as int),
        at_char_start(buf.bytes(), r.1 as int),
        utf8(r.2@) == buf.bytes().subrange(r.0 as int, r.1 as int),
        r.2@ == cursor_line(*buf),
{
    let text = buf.text();
    let b = text.as_bytes();
    let ghost bs = buf.bytes();
    let len = b.len();
    let c = if buf.cursor() < len {
        buf.cursor()
    } else {
        len
    };
    proof {
        lemma_utf8_facts(text@);
        lemma_line_begin(bs, c as int);
        lemma_line_finish(bs, c as int);
    }
    let mut s = c;
    while s > 0 && b[s - 1] != 10u8
        invariant
            0 <= s <= c <= len,
            len == bs.len(),
            b@ == bs,
            line_begin(bs, s as int) == line_begin(bs, c as int),
        decreases s,
    {
        s = s - 1;
    }
    let mut e = c;
    while e < len && b[e] != 10u8
        invariant
            c <= e <= len,
            len == bs.len(),
            b@ == bs,
            line_finish(bs, e as int) == line_finish(bs, c as int),
        decreases len - e,
    {
        e = e + 1;
    }
    proof {
        if s > 0 {
            lemma_after_ascii(bs, s as int);
        }
    }
    let line = substr(text, s, e);
    proof {
        lemma_utf8_facts(line@);
    }
    (s, e, line)
}

/// The name with number `k` as a string.
fn name_str(k: usize) -> (r: &'static str)
    requires
        k < 7,
    ensures
        r@ == heading_names()[k as int],
{
    if k == 0 {
        "part"
    } else if k == 1 {
        "chapter"
    } else if k == 2 {
        "section"
    } else if k == 3 {
        "subsection"
    } else if k == 4 {
        "subsubsection"
    } else if k == 5 {
        "paragraph"
    } else {
        "subparagraph"
    }
}

/// The sectioning command on the cursor's line, if the (trimmed) line holds one.
pub fn detect_current_heading(buf: &EditorBuffer) -> (r: Option<&'static str>)
    requires
        at_char_start(buf.bytes(), clamped(*buf)),
    ensures
        match r {
            Some(name) => current_heading_spec(*buf) matches Some(k) && 0 <= k < 7 && name@
                == heading_names()[k],
            None => current_heading_spec(*buf) is None,
        },
{
    let names = Names::new();
    let (_, _, line) = cursor_line_range(buf);
    let lc = chars_of(line);
    let t = trim_exec(lc.as_slice());
    match names.first_form_exec(t.as_slice(), HeadingForm::Any) {
        Some((_, k, _, _)) => Some(name_str(k)),
        None => None,
    }
}

/// A trimmed line's encoding is no longer than the line's.
proof fn lemma_trim_len(s: Seq<char>)
    ensures
        utf8(trim(s)).len() <= utf8(s).len(),
{
    lemma_skip_ws(s, 0);
    lemma_skip_ws_back(s, s.len() as int);
    let a = crate::strings::skip_ws(s, 0);
    let z = crate::strings::skip_ws_back(s, s.len() as int);
    if a < z {
        lemma_utf8_subrange(s, a, z);
    } else {
        assert(trim(s) =~= s.subrange(0, 0));
        lemma_utf8_subrange(s, 0, 0);
    }
}

/// The text a heading change puts on the cursor's line.
pub open spec fn heading_content(tr: Seq<char>) -> Seq<char> {
    match first_form(tr, 0, HeadingForm::Full) {
        Some((_, _, _, br)) => trim(tr.subrange(br + 1, find_char(tr, '}', br + 1))),
        None => tr,
    }
}

/// How many bytes of the cursor's line count as its indentation: the line's length less the
/// trimmed line's.
pub open spec fn indent_len(line: Seq<char>) -> int {
    utf8(line).len() - utf8(trim(line)).len()
}

/// The new line for `heading` (`None`: plain text): the indentation, then `\name{content}`
/// (with `*` when not numbered), or the content alone.
pub open spec fn heading_line(line: Seq<char>, heading: Option<Seq<char>>, numbered: bool) -> Seq<
    char,
> {
    let indent = decode_utf8(utf8(line).subrange(0, indent_len(line)));
    let content = heading_content(trim(line));
    match heading {
        None => indent + content,
        Some(cmd) => indent + "\\"@ + cmd + (if numbered {
            ""@
        } else {
            "*"@
        }) + "{"@ + content + "}"@,
    }
}

/// Turns the cursor's line into the heading `heading` (or plain text for `None`), keeping its
/// indentation and its content (a heading's braced text, trimmed, or the trimmed line), and
/// puts the cursor at the end of the content. The change is not recorded for undo.
pub fn apply_heading(buf: &mut EditorBuffer, heading: Option<&str>, numbered: bool)
    requires
        at_char_start(old(buf).bytes(), clamped(*old(buf))),
        at_char_start(utf8(cursor_line(*old(buf))), indent_len(cursor_line(*old(buf)))),
    ensures
        ({
            let b = old(buf).bytes();
            let ls = line_begin(b, clamped(*old(buf)));
            let le = line_finish(b, clamped(*old(buf)));
            let nl = heading_line(
                cursor_line(*old(buf)),
                match heading {
                    Some(h) => Some(h@),
                    None => None,
                },
                numbered,
            );
            &&& final(buf).bytes() == splice(b, ls, le, utf8(nl))
            &&& final(buf).cursor_view() == ls + utf8(nl).len() - if heading is Some {
                1int
            } else {
                0int
            }
        }),
        final(buf).dirty_view(),
        final(buf).lines_ok(),
        final(buf).path_view() == old(buf).path_view(),
        final(buf).undo_view() == old(buf).undo_view(),
        final(buf).redo_view() == old(buf).redo_view(),
{
    let names = Names::new();
    let (ls, le, line) = cursor_line_range(buf);
    let ghost lv = line@;
    let lc = chars_of(line);
    let tr = trim_exec(lc.as_slice());
    let content: Vec<char> = match names.first_form_exec(tr.as_slice(), HeadingForm::Full) {
        Some((_, _, _, br)) => {
            proof {
                lemma_first_form(tr@, 0, HeadingForm::Full);
            }
            let close = find_char_exec(tr.as_slice(), '}', br + 1);
            let inner = copy_range_checked(tr.as_slice(), br + 1, close);
            trim_exec(inner.as_slice())
        },
        None => tr.clone(),
    };
    let tr_s = string_from_chars(tr.as_slice(), 0, tr.len());
    proof {
        assert(tr@.subrange(0, tr@.len() as int) =~= tr@);
        lemma_trim_len(lv);
        lemma_utf8_facts(tr_s@);
    }
    let k = line.as_bytes().len() - tr_s.as_str().as_bytes().len();
    let indent = substr(line, 0, k);
    proof {
        lemma_utf8_facts(indent@);
    }
    let content_s = string_from_chars(content.as_slice(), 0, content.len());
    proof {
        assert(content@.subrange(0, content@.len() as int) =~= content@);
    }
    let new_line = match heading {
        None => String::from_str(indent).concat(content_s.as_str()),
        Some(cmd) => {
            let star = if numbered {
                ""
            } else {
                "*"
            };
            String::from_str(indent).concat("\\").concat(cmd).concat(star).concat("{").concat(
                content_s.as_str(),
            ).concat("}")
        },
    };
    proof {
        let hv = match heading {
            Some(h) => Some(h@),
            None => None,
        };
        assert(new_line@ =~= heading_line(lv, hv, numbered));
    }
    buf.replace_text_range(ls, le, new_line.as_str());
    let total = buf.text().as_bytes().len();
    let nlen = new_line.as_str().as_bytes().len();
    proof {
        let b = old(buf).bytes();
        assert(buf.bytes().len() == ls + utf8(new_line@).len() + (b.len() - le));
        if heading is Some {
            reveal_strlit("}");
            lemma_utf8_concat(new_line@.drop_last(), seq!['}']);
            assert(new_line@ =~= new_line@.drop_last() + seq!['}']);
        }
    }
    let c = match heading {
        None => ls + nlen,
        Some(_) => ls + nlen - 1,
    };
    buf.set_cursor(c);
    buf.sync_after_edit();
}

/// A copy of `s[start..end]`, given `start <= end + 1` and `end` within `s`.
fn copy_range_checked(s: &[char], start: usize, end: usize) -> (r: Vec<char>)
    requires
        end <= s@.len(),
        start <= end,
    ensures
        r@ == s@.subrange(start as int, end as int),
{
    copy_range(s, start, end)
}

/// The cursor's line after switching its heading to unnumbered (`want_star`: add a `*` after
/// the first unstarred heading name) or numbered (remove the `*` of the first starred one);
/// `None` when the line holds no heading command or nothing changes.
pub open spec fn toggled_line(line: Seq<char>, want_star: bool) -> Option<Seq<char>> {
    if first_form(line, 0, HeadingForm::Any) is None {
        None
    } else if want_star {
        match first_form(line, 0, HeadingForm::Plain) {
            Some((_, _, e, _)) => Some(line.subrange(0, e) + seq!['*'] + line.subrange(e, line.len() as int)),
            None => None,
        }
    } else {
        match first_form(line, 0, HeadingForm::Starred) {
            Some((_, _, e, _)) => Some(line.subrange(0, e) + line.subrange(e + 1, line.len() as int)),
            None => None,
        }
    }
}

/// Makes the heading on the cursor's line numbered (`numbered`) or unnumbered by removing or
/// adding the `*` after its name. When the line changes, the cursor (if it was past the line's
/// start) moves by the change in length, kept between the line's start and the end of the
/// text. The change is not recorded for undo.
pub fn toggle_heading_starred(buf: &mut EditorBuffer, numbered: bool)
    requires
        at_char_start(old(buf).bytes(), clamped(*old(buf))),
    ensures
        ({
            let b = old(buf).bytes();
            let c = clamped(*old(buf));
            let ls = line_begin(b, c);
            let le = line_finish(b, c);
            match toggled_line(cursor_line(*old(buf)), !numbered) {
                None => *final(buf) == *old(buf),
                Some(nl) => {
                    let nb = splice(b, ls, le, utf8(nl));
                    let moved = c + utf8(nl).len() - (le - ls);
                    &&& final(buf).bytes() == nb
                    &&& final(buf).cursor_view() == if c > ls {
                        if moved < ls {
                            ls
                        } else if moved > nb.len() {
                            nb.len() as int
                        } else {
                            moved
                        }
                    } else {
                        old(buf).cursor_view()
                    }
                    &&& final(buf).dirty_view()
                    &&& final(buf).lines_ok()
                    &&& final(buf).path_view() == old(buf).path_view()
                    &&& final(buf).undo_view() == old(buf).undo_view()
                    &&& final(buf).redo_view() == old(buf).redo_view()
                },
            }
        }),
{
    let want_star = !numbered;
    let names = Names::new();
    let (ls, le, line) = cursor_line_range(buf);
    let len0 = buf.text().as_bytes().len();
    let c = if buf.cursor() < len0 {
        buf.cursor()
    } else {
        len0
    };
    let lc = chars_of(line);
    proof {
        lemma_first_form(lc@, 0, HeadingForm::Plain);
        lemma_first_form(lc@, 0, HeadingForm::Starred);
    }
    if names.first_form_exec(lc.as_slice(), HeadingForm::Any).is_none() {
        return;
    }
    let edited: Vec<char> = if want_star {
        match names.first_form_exec(lc.as_slice(), HeadingForm::Plain) {
            Some((_, _, e, _)) => {
                let mut v = copy_range(lc.as_slice(), 0, e);
                v.push('*');
                let mut rest = copy_range(lc.as_slice(), e, lc.len());
                v.append(&mut rest);
                v
            },
            None => return,
        }
    } else {
        match names.first_form_exec(lc.as_slice(), HeadingForm::Starred) {
            Some((_, _, e, _)) => {
                let mut v = copy_range(lc.as_slice(), 0, e);
                let mut rest = copy_range(lc.as_slice(), e + 1, lc.len());
                v.append(&mut rest);
                v
            },
            None => return,
        }
    };
    let new_line = string_from_chars(edited.as_slice(), 0, edited.len());
    proof {
        assert(edited@.subrange(0, edited@.len() as int) =~= edited@);
        assert(Some(new_line@) == toggled_line(lc@, want_star));
    }
    let old_len = le - ls;
    let new_len = new_line.as_str().as_bytes().len();
    buf.replace_text_range(ls, le, new_line.as_str());
    let total = buf.text().as_bytes().len();
    if c > ls {
        let nc = if new_len >= old_len {
            let m = c + (new_len - old_len);
            if m > total {
                total
            } else {
                m
            }
        } else {
            let d = old_len - new_len;
            if c - ls < d {
                ls
            } else {
                let m = c - d;
                if m > total {
                    total
                } else {
                    m
                }
            }
        };
        buf.set_cursor(nc);
    }
    buf.sync_after_edit();
}

/// Whether the document is an article, from the captures of the `\documentclass` pattern in it:
/// the class name captured is `article`; with no `\documentclass` it counts as an article.
pub open spec fn is_article_from_spec(text: Seq<char>, caps: Option<Seq<Option<(usize, usize)>>>) -> bool {
    match caps {
        Some(c) => c.len() > 1 && c[1] is Some && decode_utf8(
            utf8(text).subrange(c[1]->Some_0.0 as int, c[1]->Some_0.1 as int),
        ) == "article"@,
        None => true,
    }
}

/// The pattern of a document class declaration, with the class name as group 1.
pub open spec fn documentclass_pattern() -> Seq<char> {
    "\\\\documentclass(?:\\[.*?\\])?\\{(\\w+)\\}"@
}

/// Decides from the captures of the `\documentclass` pattern in `text` whether it is an article.
pub fn is_article_from(text: &str, caps: Option<Vec<Option<(usize, usize)>>>) -> (r: bool)
    requires
        caps matches Some(c) ==> spans_in(text@, c@),
    ensures
        r == is_article_from_spec(
            text@,
            match caps {
                Some(c) => Some(c@),
                None => None,
            },
        ),
{
    match caps {
        Some(c) => {
            if c.len() > 1 {
                match c[1] {
                    Some((s, e)) => {
                        let name = substr(text, s, e);
                        proof {
                            lemma_utf8_facts(name@);
                        }
                        let nc = chars_of(name);
                        let art = chars_of("article");
                        proof {
                            assert(nc@.len() == art@.len() ==> nc@.subrange(0, art@.len() as int)
                                =~= nc@);
                        }
                        nc.len() == art.len() && occurs_at_exec(nc.as_slice(), art.as_slice(), 0)
                    },
                    None => false,
                }
            } else {
                false
            }
        },
        None => true,
    }
}

/// Whether the document is an article (see `is_article_from_spec`), by the `\documentclass`
/// pattern's captures as the `regex` crate finds them.
pub fn is_article_document(text: &str) -> (r: bool)
    ensures
        r == is_article_from_spec(text@, regex_captures_spec(documentclass_pattern(), text@)),
{
    let caps = regex_captures("\\\\documentclass(?:\\[.*?\\])?\\{(\\w+)\\}", text);
    is_article_from(text, caps)
}

/// What `char::to_uppercase` gives for `c`.
pub uninterp spec fn char_uppercase_spec(c: char) -> Seq<char>;

/// The uppercase form of `c`: the ASCII capital for `a`..`z`, the character itself for other
/// ASCII characters, and Unicode's uppercase mapping otherwise.
pub open spec fn upper(c: char) -> Seq<char> {
    if 'a' <= c <= 'z' {
        seq![((c as u32) - 32) as char]
    } else if (c as u32) < 128 {
        seq![c]
    } else {
        char_uppercase_spec(c)
    }
}

/// The uppercase form of `c`, as a string.
/// Trusted: `char::to_uppercase`, documented to yield Unicode's uppercase mapping of the
/// character, or the character itself when it has none (so ASCII letters become capitals and
/// other ASCII characters stay); the non-ASCII mapping is left unstated beyond its name.
#[verifier::external_body]
fn char_to_uppercase(c: char) -> (r: String)
    ensures
        r@ == char_uppercase_spec(c),
        r@ == upper(c),
{
    c.to_uppercase().collect()
}

/// The label of the heading menu for heading `h`.
pub open spec fn heading_label_spec(h: Option<Seq<char>>) -> Seq<char> {
    match h {
        None => "Paragraph"@,
        Some(s) => if s == "subsection"@ {
            "Subsection"@
        } else if s == "subsubsection"@ {
            "Sub-subsection"@
        } else if s == "subparagraph"@ {
            "Subparagraph"@
        } else {
            upper(s[0]) + s.drop_first()
        },
    }
}

fn same_chars(a: &[char], b: &[char]) -> (r: bool)
    ensures
        r == (a@ == b@),
{
    let r = a.len() == b.len() && occurs_at_exec(a, b, 0);
    proof {
        if a@.len() == b@.len() {
            assert(a@.subrange(0, b@.len() as int) =~= a@);
        }
    }
    r
}

/// The label of the heading menu: "Paragraph" without a heading, the heading's name with a
/// capital first letter otherwise ("Sub-subsection" for `subsubsection`).
pub fn display_heading_label(heading: Option<&str>) -> (r: String)
    requires
        heading matches Some(h) ==> h@.len() > 0,
    ensures
        r@ == heading_label_spec(
            match heading {
                Some(h) => Some(h@),
                None => None,
            },
        ),
{
    match heading {
        None => String::from_str("Paragraph"),
        Some(h) => {
            let hc = chars_of(h);
            if same_chars(hc.as_slice(), chars_of("subsection").as_slice()) {
                String::from_str("Subsection")
            } else if same_chars(hc.as_slice(), chars_of("subsubsection").as_slice()) {
                String::from_str("Sub-subsection")
            } else if same_chars(hc.as_slice(), chars_of("subparagraph").as_slice()) {
                String::from_str("Subparagraph")
            } else {
                let first = char_to_uppercase(hc[0]);
                let rest = string_from_chars(hc.as_slice(), 1, hc.len());
                let r = first.concat(rest.as_str());
                assert(r@ =~= upper(h@[0]) + h@.drop_first());
                r
            }
        },
    }
}

/// The character styles of the formatting toolbar.
#[derive(Debug, Clone, Copy, PartialEq, Eq, Structural)]
pub enum TextStyle {
    Bold,
    Italic,
    Underline,
}

/// The command a style inserts, with empty braces.
pub open spec fn style_command(style: TextStyle) -> Seq<char> {
    match style {
        TextStyle::Bold => "\\textbf{}"@,
        TextStyle::Italic => "\\textit{}"@,
        TextStyle::Underline => "\\underline{}"@,
    }
}

/// Inserts the style's command at the cursor (recorded for undo) and puts the cursor one
/// character back, between the braces.
pub fn apply_text_style(buf: &mut EditorBuffer, style: TextStyle)
    requires
        old(buf).wf(),
    ensures
        final(buf).wf(),
        final(buf).bytes() == splice(
            old(buf).bytes(),
            old(buf).cursor_view(),
            old(buf).cursor_view(),
            utf8(style_command(style)),
        ),
        final(buf).cursor_view() == char_start_at_or_before(
            final(buf).bytes(),
            old(buf).cursor_view() + utf8(style_command(style)).len() - 1,
        ),
        final(buf).undo_view() == old(buf).undo_view().push(EditView { insert: true, text: style_command(style), position: old(buf).cursor_view() }),
        final(buf).redo_view().len() == 0,
        final(buf).dirty_view(),
        final(buf).path_view() == old(buf).path_view(),
        old(buf).history_ok() ==> final(buf).history_ok(),
{
    let cmd = match style {
        TextStyle::Bold => "\\textbf{}",
        TextStyle::Italic => "\\textit{}",
        TextStyle::Underline => "\\underline{}",
    };
    proof {
        reveal_strlit("\\textbf{}");
        reveal_strlit("\\textit{}");
        reveal_strlit("\\underline{}");
        lemma_utf8_facts(cmd@);
    }
    buf.insert_str(cmd);
    buf.move_left();
}

/// Whether a heading level can be chosen: chapters do not exist in articles.
pub open spec fn heading_enabled_spec(command: Seq<char>, is_article: bool) -> bool {
    !(command == "chapter"@ && is_article)
}

/// Whether heading `command` can be chosen in a document that is (or is not) an article.
pub fn heading_enabled(command: &str, is_article: bool) -> (r: bool)
    ensures
        r == heading_enabled_spec(command@, is_article),
{
    let a = chars_of(command);
    let b = chars_of("chapter");
    let same = a.len() == b.len() && occurs_at_exec(a.as_slice(), b.as_slice(), 0);
    proof {
        if a@.len() == b@.len() {
            assert(a@.subrange(0, b@.len() as int) =~= a@);
        }
    }
    !(same && is_article)
}

/// Indents at the cursor with the Tab key: four spaces go in before the cursor and the cursor
/// moves past them. The change is not recorded for undo.
pub fn indent_at_cursor(buf: &mut EditorBuffer)
    requires
        old(buf).wf(),
    ensures
        final(buf).bytes() == splice(
            old(buf).bytes(),
            old(buf).cursor_view(),
            old(buf).cursor_view(),
            utf8("    "@),
        ),
        final(buf).cursor_view() == old(buf).cursor_view() + utf8("    "@).len(),
        final(buf).wf(),
        final(buf).dirty_view(),
        final(buf).path_view() == old(buf).path_view(),
        final(buf).undo_view() == old(buf).undo_view(),
        final(buf).redo_view() == old(buf).redo_view(),
{
    replace_chars_at(buf, buf.cursor(), buf.cursor(), "    ");
}

/// Replaces the bytes `st..en` by `s`, leaves the cursor after `s` and brings the line index up
/// to date.
fn replace_chars_at(buf: &mut EditorBuffer, st: usize, en: usize, s: &str)
    requires
        old(buf).wf(),
        st <= en <= old(buf).bytes().len(),
        at_char_start(old(buf).bytes(), st as int),
        at_char_start(old(buf).bytes(), en as int),
    ensures
        final(buf).bytes() == splice(old(buf).bytes(), st as int, en as int, utf8(s@)),
        final(buf).cursor_view() == st + utf8(s@).len(),
        final(buf).wf(),
        final(buf).dirty_view(),
        final(buf).path_view() == old(buf).path_view(),
        final(buf).undo_view() == old(buf).undo_view(),
        final(buf).redo_view() == old(buf).redo_view(),
{
    let ghost b0 = buf.bytes();
    let n = s.as_bytes().len();
    buf.replace_text_range(st, en, s);
    let total = buf.text().as_bytes().len();
    proof {
        lemma_utf8_facts(old(buf).text_view());
        crate::text::lemma_splice_end_start(b0, st as int, en as int, utf8(s@));
    }
    assert(st + n <= total);
    buf.set_cursor(st + n);
    buf.sync_after_edit();
}

/// `lo` and `hi` in order.
pub open spec fn ordered(a: usize, b: usize) -> (usize, usize) {
    if a <= b {
        (a, b)
    } else {
        (b, a)
    }
}

/// Replaces the characters between the selection's ends `a` and `b` (character positions, in
/// either order; a position past the end stands for the end) by `s`, and puts the cursor after
/// `s`: what cutting (with `s` empty) and pasting do. The change is not recorded for undo.
pub fn replace_selection(buf: &mut EditorBuffer, a: usize, b: usize, s: &str)
    requires
        old(buf).wf(),
    ensures
        ({
            let bb = old(buf).bytes();
            let (lo, hi) = ordered(a, b);
            let st = char_offset(bb, lo as nat);
            let en = char_offset(bb, hi as nat);
            &&& final(buf).bytes() == splice(bb, st, en, utf8(s@))
            &&& final(buf).cursor_view() == st + utf8(s@).len()
        }),
        final(buf).wf(),
        final(buf).dirty_view(),
        final(buf).path_view() == old(buf).path_view(),
        final(buf).undo_view() == old(buf).undo_view(),
        final(buf).redo_view() == old(buf).redo_view(),
{
    let (lo, hi) = if a <= b {
        (a, b)
    } else {
        (b, a)
    };
    let ghost bb = buf.bytes();
    let bytes = buf.text().as_bytes();
    let len = bytes.len();
    let st = nth_char_offset(bytes, 0, len, lo);
    let en = nth_char_offset(bytes, 0, len, hi);
    proof {
        assert(bytes@.subrange(0, len as int) =~= bb);
        lemma_char_offset_from(bb, 0, lo as nat);
        lemma_char_offset_from(bb, 0, hi as nat);
        lemma_char_offset_monotone(bb, 0, lo as nat, hi as nat);
    }
    replace_chars_at(buf, st, en, s);
}

/// The characters between the selection's ends `a` and `b` (in either order), as copying takes
/// them: positions past the end stand for the end.
pub fn selected_text(text: &str, a: usize, b: usize) -> (r: String)
    ensures
        ({
            let (lo, hi) = ordered(a, b);
            let l = if lo < text@.len() { lo as int } else { text@.len() as int };
            let h = if hi < text@.len() { hi as int } else { text@.len() as int };
            r@ == text@.subrange(l, h)
        }),
{
    let (lo, hi) = if a <= b {
        (a, b)
    } else {
        (b, a)
    };
    let c = chars_of(text);
    let l = if lo < c.len() { lo } else { c.len() };
    let h = if hi < c.len() { hi } else { c.len() };
    string_from_chars(c.as_slice(), l, h)
}

} // verus!
