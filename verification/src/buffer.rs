//! The text buffer of one document: its text, cursor, undo and redo history and line index.
use vstd::prelude::*;
use vstd::utf8::*;

use crate::text::{
    at_char_start, char_count, char_offset, char_start_at_or_after, char_start_at_or_before,
    count_le, lemma_after_ascii, lemma_char_start_after, lemma_char_start_before,
    lemma_char_offset_from, lemma_count_le, lemma_line_starts, lemma_line_starts_upto,
    lemma_utf8_facts, lemma_valid_first_byte, line_starts, line_starts_upto, splice, substr, utf8,
    bytes_eq, strictly_sorted, count_chars, nth_char_offset, lemma_char_count_le, law_line_count,
    newlines_before,
};
use crate::types::{AppError, EditKind, EditToken, EditView, IoError, IoKind};

verus! {

/// The UTF-8 bytes an undo record carries.
pub open spec fn ev_bytes(t: EditView) -> Seq<u8> {
    utf8(t.text)
}

/// Undoing `t` on text `b` is possible without a panic: the range it works on lies in the text
/// and starts and ends on character boundaries.
pub open spec fn undo_ok(b: Seq<u8>, t: EditView) -> bool {
    let p = t.position;
    let n = ev_bytes(t).len() as int;
    if t.insert {
        &&& 0 <= p
        &&& p + n <= b.len()
        &&& at_char_start(b, p)
        &&& at_char_start(b, p + n)
    } else {
        &&& 0 <= p <= b.len()
        &&& at_char_start(b, p)
    }
}

/// Undoing `t` on `b` restores what `t` recorded: it can be undone, and an insertion is still
/// in place.
pub open spec fn undo_exact(b: Seq<u8>, t: EditView) -> bool {
    let p = t.position;
    let n = ev_bytes(t).len() as int;
    &&& undo_ok(b, t)
    &&& t.insert ==> b.subrange(p, p + n) == ev_bytes(t)
}

/// The text after undoing `t` on `b`.
pub open spec fn undo_result(b: Seq<u8>, t: EditView) -> Seq<u8> {
    let p = t.position;
    let n = ev_bytes(t).len() as int;
    if t.insert {
        splice(b, p, p + n, Seq::empty())
    } else {
        splice(b, p, p, ev_bytes(t))
    }
}

/// The cursor after undoing `t`.
pub open spec fn undo_cursor(t: EditView) -> int {
    if t.insert {
        t.position
    } else {
        t.position + ev_bytes(t).len()
    }
}

/// Redoing `t` on text `b` is possible without a panic: the range it works on lies in the text
/// and starts and ends on character boundaries.
pub open spec fn redo_ok(b: Seq<u8>, t: EditView) -> bool {
    let p = t.position;
    let n = ev_bytes(t).len() as int;
    if t.insert {
        &&& 0 <= p <= b.len()
        &&& at_char_start(b, p)
    } else {
        &&& 0 <= p
        &&& p + n <= b.len()
        &&& at_char_start(b, p)
        &&& at_char_start(b, p + n)
    }
}

/// Redoing `t` on `b` re-applies what `t` recorded: it can be redone, and a deleted text is
/// still in place.
pub open spec fn redo_exact(b: Seq<u8>, t: EditView) -> bool {
    let p = t.position;
    let n = ev_bytes(t).len() as int;
    &&& redo_ok(b, t)
    &&& !t.insert ==> b.subrange(p, p + n) == ev_bytes(t)
}

/// The text after redoing `t` on `b`.
pub open spec fn redo_result(b: Seq<u8>, t: EditView) -> Seq<u8> {
    let p = t.position;
    let n = ev_bytes(t).len() as int;
    if t.insert {
        splice(b, p, p, ev_bytes(t))
    } else {
        splice(b, p, p + n, Seq::empty())
    }
}

/// The cursor after redoing `t`.
pub open spec fn redo_cursor(t: EditView) -> int {
    if t.insert {
        t.position + ev_bytes(t).len()
    } else {
        t.position
    }
}

/// The text reached from `b` by undoing every record of `s`, the latest first.
pub open spec fn undo_all(b: Seq<u8>, s: Seq<EditView>) -> Seq<u8>
    decreases s.len(),
{
    if s.len() == 0 {
        b
    } else {
        undo_all(undo_result(b, s.last()), s.drop_last())
    }
}

/// Pushing a record whose undo leads back to `b0` does not change where undoing everything
/// leads.
pub proof fn lemma_undo_all_push(b0: Seq<u8>, b1: Seq<u8>, s: Seq<EditView>, t: EditView)
    requires
        undo_result(b1, t) == b0,
    ensures
        undo_all(b1, s.push(t)) == undo_all(b0, s),
{
    assert(s.push(t).drop_last() =~= s);
}

/// Every record of an undo stack, from the top down, can be undone in turn starting from `b`.
pub open spec fn undo_chain_ok(b: Seq<u8>, s: Seq<EditView>) -> bool
    decreases s.len(),
{
    s.len() == 0 || (undo_exact(b, s.last()) && undo_chain_ok(undo_result(b, s.last()), s.drop_last()))
}

/// Every record of a redo stack, from the top down, can be redone in turn starting from `b`.
pub open spec fn redo_chain_ok(b: Seq<u8>, s: Seq<EditView>) -> bool
    decreases s.len(),
{
    s.len() == 0 || (redo_exact(b, s.last()) && redo_chain_ok(redo_result(b, s.last()), s.drop_last()))
}

/// The document a new buffer starts with.
pub open spec fn default_document() -> Seq<char> {
    "\\documentclass{article}\n\n% Preamble (Packages and Settings)\n\\usepackage[utf8]{inputenc} % Ensures correct character encoding\n\n\\title{Document Title}\n\\author{Author Name}\n\\date{\\today}\n\n\\begin{document}\n\n\\maketitle\n\n\\section{Introduction}\nYour text goes here.\n\n\\end{document}\n"@
}

/// Inserts `ins` into `s` at byte `idx`.
/// Trusted: `String::insert_str`, which the standard library documents as inserting the
/// string slice at that byte position and panicking only when `idx` is past the end or not
/// on a character boundary (both excluded here).
#[verifier::external_body]
fn string_insert_str(s: &mut String, idx: usize, ins: &str)
    requires
        idx <= utf8(old(s)@).len(),
        at_char_start(utf8(old(s)@), idx as int),
    ensures
        utf8(final(s)@) == splice(utf8(old(s)@), idx as int, idx as int, utf8(ins@)),
{
    s.insert_str(idx, ins)
}

/// Removes the bytes `start..end` from `s`.
/// Trusted: `String::drain`, which the standard library documents as removing that byte range
/// (when the returned iterator is dropped) and panicking only when a bound is out of range or not
/// on a character boundary (both excluded here).
#[verifier::external_body]
fn string_drain(s: &mut String, start: usize, end: usize)
    requires
        start <= end <= utf8(old(s)@).len(),
        at_char_start(utf8(old(s)@), start as int),
        at_char_start(utf8(old(s)@), end as int),
    ensures
        utf8(final(s)@) == splice(utf8(old(s)@), start as int, end as int, Seq::empty()),
{
    s.drain(start..end);
}

/// The bytes of a `String`.
fn string_bytes(s: &String) -> (r: &[u8])
    ensures
        r@ == utf8(s@),
{
    s.as_str().as_bytes()
}

/// Undo and redo of an insertion record agree: each restores the text the other started from.
pub proof fn lemma_insert_inverse(b: Seq<u8>, t: EditView)
    requires
        valid_utf8(b),
        t.insert,
    ensures
        redo_ok(b, t) ==> undo_ok(redo_result(b, t), t),
        undo_ok(b, t) ==> redo_ok(undo_result(b, t), t),
        redo_exact(b, t) ==> undo_exact(redo_result(b, t), t) && undo_result(redo_result(b, t), t) == b,
        undo_exact(b, t) ==> redo_exact(undo_result(b, t), t) && redo_result(undo_result(b, t), t) == b,
{
    let p = t.position;
    let s = ev_bytes(t);
    let n = s.len() as int;
    lemma_utf8_facts(t.text);
    if n > 0 {
        lemma_valid_first_byte(s);
    }
    if 0 < b.len() {
        lemma_valid_first_byte(b);
    }
    if redo_ok(b, t) {
        let r = redo_result(b, t);
        assert(r.subrange(p, p + n) =~= s);
        assert(splice(r, p, p + n, Seq::empty()) =~= b);
        assert(p + n < r.len() ==> r[p + n] == b[p]);
        assert(n > 0 ==> r[p] == s[0]);
        assert(n == 0 && p < r.len() ==> r[p] == b[p]);
    }
    if undo_ok(b, t) {
        let u = undo_result(b, t);
        assert(p < u.len() ==> u[p] == b[p + n]);
        if undo_exact(b, t) {
            assert(splice(u, p, p, s) =~= b);
        }
    }
}

/// Undo and redo of a deletion record agree: each restores the text the other started from.
pub proof fn lemma_delete_inverse(b: Seq<u8>, t: EditView)
    requires
        valid_utf8(b),
        !t.insert,
    ensures
        redo_ok(b, t) ==> undo_ok(redo_result(b, t), t),
        undo_ok(b, t) ==> redo_ok(undo_result(b, t), t),
        redo_exact(b, t) ==> undo_exact(redo_result(b, t), t) && undo_result(redo_result(b, t), t) == b,
        undo_exact(b, t) ==> redo_exact(undo_result(b, t), t) && redo_result(undo_result(b, t), t) == b,
{
    let p = t.position;
    let s = ev_bytes(t);
    let n = s.len() as int;
    lemma_utf8_facts(t.text);
    if n > 0 {
        lemma_valid_first_byte(s);
    }
    if 0 < b.len() {
        lemma_valid_first_byte(b);
    }
    if redo_ok(b, t) {
        let r = redo_result(b, t);
        assert(p < r.len() ==> r[p] == b[p + n]);
        if redo_exact(b, t) {
            assert(splice(r, p, p, s) =~= b);
        }
    }
    if undo_ok(b, t) {
        let u = undo_result(b, t);
        assert(u.subrange(p, p + n) =~= s);
        assert(splice(u, p, p + n, Seq::empty()) =~= b);
        assert(p + n < u.len() ==> u[p + n] == b[p]);
        assert(n > 0 ==> u[p] == s[0]);
        assert(n == 0 && p < u.len() ==> u[p] == b[p]);
    }
}

/// Undo and redo agree: undoing a redone record restores the text, and vice versa.
pub proof fn lemma_undo_redo_inverse(b: Seq<u8>, t: EditView)
    requires
        valid_utf8(b),
    ensures
        redo_ok(b, t) ==> undo_ok(redo_result(b, t), t),
        undo_ok(b, t) ==> redo_ok(undo_result(b, t), t),
        redo_exact(b, t) ==> undo_exact(redo_result(b, t), t) && undo_result(redo_result(b, t), t) == b,
        undo_exact(b, t) ==> redo_exact(undo_result(b, t), t) && redo_result(undo_result(b, t), t) == b,
{
    if t.insert {
        lemma_insert_inverse(b, t);
    } else {
        lemma_delete_inverse(b, t);
    }
}

/// Pushing a record that can be undone back to the previous text keeps the undo chain replayable.
pub proof fn lemma_push_ok(b0: Seq<u8>, b1: Seq<u8>, s: Seq<EditView>, t: EditView)
    requires
        undo_chain_ok(b0, s),
        undo_exact(b1, t),
        undo_result(b1, t) == b0,
    ensures
        undo_chain_ok(b1, s.push(t)),
{
    let p = s.push(t);
    assert(p.drop_last() =~= s);
}

/// The 1-based line holding byte position `c`: how many lines start at or before `c`.
pub open spec fn line_of(b: Seq<u8>, c: int) -> int {
    count_le(line_starts(b), c) as int
}

/// End (exclusive, after its newline if any) of 1-based line `line`.
pub open spec fn line_end(b: Seq<u8>, line: int) -> int {
    if line < line_starts(b).len() {
        line_starts(b)[line] as int
    } else {
        b.len() as int
    }
}

/// The 0-based column of byte position `c`: characters from the start of its line up to `c`.
pub open spec fn col_of(b: Seq<u8>, c: int) -> int {
    char_count(b.subrange(line_starts(b)[line_of(b, c) - 1] as int, c)) as int
}

/// The column the cursor lands on in a line of `n` characters (newline included) when it moves
/// vertically from column `col`: `col`, but at most the last character.
pub open spec fn target_col(col: int, n: int) -> int {
    if n <= 0 {
        0
    } else if col < n - 1 {
        col
    } else {
        n - 1
    }
}

/// Where the cursor goes on "up" from byte `c`: the same column of the previous line (clamped),
/// or the start of the text on the first line.
pub open spec fn move_up_target(b: Seq<u8>, c: int) -> int {
    let line = line_of(b, c);
    if line <= 1 {
        0
    } else {
        let ps = line_starts(b)[line - 2] as int;
        let pl = b.subrange(ps, line_starts(b)[line - 1] as int);
        ps + char_offset(pl, target_col(col_of(b, c), char_count(pl) as int) as nat)
    }
}

/// Where the cursor goes on "down" from byte `c`: the same column of the next line (clamped),
/// or the end of the text on the last line.
pub open spec fn move_down_target(b: Seq<u8>, c: int) -> int {
    let line = line_of(b, c);
    if line >= line_starts(b).len() {
        b.len() as int
    } else {
        let ns = line_starts(b)[line] as int;
        let nl = b.subrange(ns, line_end(b, line + 1));
        ns + char_offset(nl, target_col(col_of(b, c), char_count(nl) as int) as nat)
    }
}

/// The length of the run of spaces and tabs at the start of `x` from byte `i` on.
pub open spec fn blanks_from(x: Seq<u8>, i: int) -> int
    decreases x.len() - i,
{
    if 0 <= i < x.len() && (x[i] == 32u8 || x[i] == 9u8) {
        blanks_from(x, i + 1)
    } else {
        i
    }
}

/// The text, cursor, undo and redo history and line index of an open document.
#[derive(Debug)]
pub struct EditorBuffer {
    text: String,
    path: Option<String>,
    dirty: bool,
    cursor: usize,
    undo_stack: Vec<EditToken>,
    redo_stack: Vec<EditToken>,
    line_starts: Vec<usize>,
}

impl EditorBuffer {
    /// The characters of the text.
    pub closed spec fn text_view(&self) -> Seq<char> {
        self.text@
    }

    /// The UTF-8 bytes of the text.
    pub open spec fn bytes(&self) -> Seq<u8> {
        utf8(self.text_view())
    }

    /// The cursor, a byte offset into the text.
    pub closed spec fn cursor_view(&self) -> int {
        self.cursor as int
    }

    /// Whether the text changed since it was last saved or loaded.
    pub closed spec fn dirty_view(&self) -> bool {
        self.dirty
    }

    /// The undo records, oldest first.
    pub closed spec fn undo_view(&self) -> Seq<EditView> {
        self.undo_stack@.map_values(|t: EditToken| t@)
    }

    /// The redo records, oldest first.
    pub closed spec fn redo_view(&self) -> Seq<EditView> {
        self.redo_stack@.map_values(|t: EditToken| t@)
    }

    /// The file the buffer belongs to, if any.
    pub closed spec fn path_view(&self) -> Option<Seq<char>> {
        match &self.path {
            Some(p) => Some(p@),
            None => None,
        }
    }

    /// The line index: the start offset of every line.
    pub closed spec fn lines_view(&self) -> Seq<usize> {
        self.line_starts@
    }

    /// The line index matches the text.
    pub closed spec fn lines_ok(&self) -> bool {
        &&& self.bytes().len() <= usize::MAX
        &&& self.lines_view() == line_starts(self.bytes())
    }

    /// The cursor is on a character boundary of the text.
    pub open spec fn cursor_ok(&self) -> bool {
        &&& self.cursor_view() <= self.bytes().len()
        &&& at_char_start(self.bytes(), self.cursor_view())
    }

    /// Well-formed: line index up to date and cursor on a character boundary.
    pub open spec fn wf(&self) -> bool {
        self.lines_ok() && self.cursor_ok()
    }

    /// The undo history can be replayed back from the current text, and the redo history forward.
    pub open spec fn history_ok(&self) -> bool {
        &&& undo_chain_ok(self.bytes(), self.undo_view())
        &&& redo_chain_ok(self.bytes(), self.redo_view())
    }

    /// The most recent undo record, if any, can be undone.
    pub open spec fn undo_applicable(&self) -> bool {
        self.undo_view().len() > 0 ==> undo_ok(self.bytes(), self.undo_view().last())
    }

    /// The most recent redo record, if any, can be redone.
    pub open spec fn redo_applicable(&self) -> bool {
        self.redo_view().len() > 0 ==> redo_ok(self.bytes(), self.redo_view().last())
    }

    /// A buffer holding the default document, with the cursor at the start, no file and no history.
    pub fn new() -> (r: Self)
        ensures
            r.text_view() == default_document(),
            r.cursor_view() == 0,
            !r.dirty_view(),
            r.path_view() is None,
            r.undo_view() == Seq::<EditView>::empty(),
            r.redo_view() == Seq::<EditView>::empty(),
            r.wf(),
            r.history_ok(),
    {
        let text = "\\documentclass{article}\n\n% Preamble (Packages and Settings)\n\\usepackage[utf8]{inputenc} % Ensures correct character encoding\n\n\\title{Document Title}\n\\author{Author Name}\n\\date{\\today}\n\n\\begin{document}\n\n\\maketitle\n\n\\section{Introduction}\nYour text goes here.\n\n\\end{document}\n".to_owned();
        let mut buf = EditorBuffer {
            text,
            path: None,
            dirty: false,
            cursor: 0,
            undo_stack: Vec::new(),
            redo_stack: Vec::new(),
            line_starts: Vec::new(),
        };
        buf.rebuild_line_starts();
        proof {
            assert(buf.undo_view() =~= Seq::<EditView>::empty());
            assert(buf.redo_view() =~= Seq::<EditView>::empty());
        }
        buf
    }

    /// Recomputes the line index from the text.
    pub(crate) fn rebuild_line_starts(&mut self)
        ensures
            final(self).lines_ok(),
            final(self).text_view() == old(self).text_view(),
            final(self).cursor_view() == old(self).cursor_view(),
            final(self).dirty_view() == old(self).dirty_view(),
            final(self).path_view() == old(self).path_view(),
            final(self).undo_view() == old(self).undo_view(),
            final(self).redo_view() == old(self).redo_view(),
    {
        let b = string_bytes(&self.text);
        let mut starts: Vec<usize> = Vec::new();
        starts.push(0);
        let mut i: usize = 0;
        while i < b.len()
            invariant
                b@ == utf8(self.text@),
                0 <= i <= b@.len(),
                starts@ == line_starts_upto(b@, i as int),
            decreases b@.len() - i,
        {
            if b[i] == 10u8 {
                starts.push(i + 1);
            }
            i = i + 1;
        }
        self.line_starts = starts;
    }

    /// Marks the text as changed and recomputes the line index (after the text was edited directly).
    pub fn sync_after_edit(&mut self)
        ensures
            final(self).dirty_view(),
            final(self).lines_ok(),
            final(self).wf() == final(self).cursor_ok(),
            final(self).history_ok() == old(self).history_ok(),
            final(self).text_view() == old(self).text_view(),
            final(self).cursor_view() == old(self).cursor_view(),
            final(self).path_view() == old(self).path_view(),
            final(self).undo_view() == old(self).undo_view(),
            final(self).redo_view() == old(self).redo_view(),
    {
        self.dirty = true;
        self.rebuild_line_starts();
    }

    /// Records `token` as the latest undo record and forgets the redo history.
    pub(crate) fn push_undo(&mut self, token: EditToken)
        ensures
            final(self).undo_view() == old(self).undo_view().push(token@),
            final(self).redo_view() == Seq::<EditView>::empty(),
            final(self).text_view() == old(self).text_view(),
            final(self).cursor_view() == old(self).cursor_view(),
            final(self).dirty_view() == old(self).dirty_view(),
            final(self).path_view() == old(self).path_view(),
            final(self).lines_view() == old(self).lines_view(),
    {
        let ghost old_undo = self.undo_stack@;
        self.undo_stack.push(token);
        self.redo_stack.clear();
        proof {
            let t = token@;
            assert(old_undo.push(token).map_values(|t: EditToken| t@) =~= old_undo.map_values(
                |t: EditToken| t@,
            ).push(t));
            assert(self.undo_view() =~= old(self).undo_view().push(t));
            assert(self.redo_view() =~= Seq::<EditView>::empty());
        }
    }

    /// Inserts `s` at the cursor and moves the cursor past it, recording an undo step.
    /// Inserting the empty string changes nothing.
    pub fn insert_str(&mut self, s: &str)
        requires
            old(self).wf(),
        ensures
            s@.len() == 0 ==> *final(self) == *old(self),
            s@.len() > 0 ==> {
                &&& final(self).bytes() == splice(
                    old(self).bytes(),
                    old(self).cursor_view(),
                    old(self).cursor_view(),
                    utf8(s@),
                )
                &&& final(self).cursor_view() == old(self).cursor_view() + utf8(s@).len()
                &&& final(self).dirty_view()
                &&& final(self).undo_view() == old(self).undo_view().push(EditView { insert: true, text: s@, position: old(self).cursor_view() })
                &&& final(self).redo_view() == Seq::<EditView>::empty()
                &&& final(self).path_view() == old(self).path_view()
            },
            final(self).wf(),
            old(self).history_ok() ==> final(self).history_ok(),
            undo_all(final(self).bytes(), final(self).undo_view()) == undo_all(old(self).bytes(), old(self).undo_view()),
    {
        if s.is_empty() {
            return;
        }
        let ghost b0 = self.bytes();
        let ghost c = self.cursor as int;
        let token = EditToken { kind: EditKind::Insert(s.to_owned()), position: self.cursor };
        let ghost t = token@;
        proof {
            lemma_utf8_facts(self.text@);
            lemma_utf8_facts(s@);
            lemma_undo_redo_inverse(b0, t);
        }
        self.push_undo(token);
        string_insert_str(&mut self.text, self.cursor, s);
        let nb = string_bytes(&self.text);
        let total = nb.len();
        assert(nb@.len() == b0.len() + utf8(s@).len());
        let n = s.as_bytes().len();
        assert(self.cursor + n <= total);
        self.cursor = self.cursor + n;
        self.dirty = true;
        self.rebuild_line_starts();
        proof {
            assert(self.bytes() == redo_result(b0, t));
            lemma_undo_all_push(b0, self.bytes(), old(self).undo_view(), t);
            if old(self).history_ok() {
                lemma_push_ok(b0, self.bytes(), old(self).undo_view(), t);
            }
        }
    }

    /// Deletes the character before the cursor and moves the cursor onto its start, recording
    /// an undo step. At the start of the text nothing changes.
    pub fn backspace(&mut self)
        requires
            old(self).wf(),
        ensures
            old(self).cursor_view() == 0 ==> *final(self) == *old(self),
            old(self).cursor_view() > 0 ==> {
                let b = old(self).bytes();
                let c = old(self).cursor_view();
                let q = char_start_at_or_before(b, c - 1);
                &&& 0 <= q < c
                &&& at_char_start(b, q)
                &&& forall|k: int| q < k < c ==> is_continuation_byte(#[trigger] b[k])
                &&& final(self).bytes() == splice(b, q, c, Seq::empty())
                &&& final(self).cursor_view() == q
                &&& final(self).dirty_view()
                &&& final(self).undo_view() == old(self).undo_view().push(EditView { insert: false, text: decode_utf8(b.subrange(q, c)), position: q })
                &&& final(self).redo_view() == Seq::<EditView>::empty()
                &&& final(self).path_view() == old(self).path_view()
            },
            final(self).wf(),
            old(self).history_ok() ==> final(self).history_ok(),
            undo_all(final(self).bytes(), final(self).undo_view()) == undo_all(old(self).bytes(), old(self).undo_view()),
    {
        if self.cursor == 0 {
            return;
        }
        let ghost b0 = self.bytes();
        let c = self.cursor;
        let b = string_bytes(&self.text);
        let mut q = c - 1;
        proof {
            lemma_char_start_before(b0, c - 1);
        }
        while q > 0 && b[q] >= 0x80 && b[q] <= 0xbf
            invariant
                b@ == b0,
                0 <= q < c <= b0.len(),
                char_start_at_or_before(b0, q as int) == char_start_at_or_before(b0, c - 1),
            decreases q,
        {
            q = q - 1;
        }
        let deleted = substr(self.text.as_str(), q, c).to_owned();
        let token = EditToken { kind: EditKind::Delete(deleted), position: q };
        let ghost t = token@;
        proof {
            lemma_utf8_facts(self.text@);
            lemma_utf8_facts(t.text);
            lemma_undo_redo_inverse(b0, t);
            assert(redo_exact(b0, t));
        }
        self.push_undo(token);
        string_drain(&mut self.text, q, c);
        self.cursor = q;
        self.dirty = true;
        self.rebuild_line_starts();
        proof {
            assert(self.bytes() == redo_result(b0, t));
            lemma_undo_all_push(b0, self.bytes(), old(self).undo_view(), t);
            if old(self).history_ok() {
                lemma_push_ok(b0, self.bytes(), old(self).undo_view(), t);
            }
        }
    }

    /// Deletes the character after the cursor, recording an undo step; the cursor stays.
    /// At the end of the text nothing changes.
    pub fn delete(&mut self)
        requires
            old(self).wf(),
        ensures
            old(self).cursor_view() >= old(self).bytes().len() ==> *final(self) == *old(self),
            old(self).cursor_view() < old(self).bytes().len() ==> {
                let b = old(self).bytes();
                let c = old(self).cursor_view();
                let r = char_start_at_or_after(b, c + 1);
                &&& c < r <= b.len()
                &&& at_char_start(b, r)
                &&& forall|k: int| c < k < r ==> is_continuation_byte(#[trigger] b[k])
                &&& final(self).bytes() == splice(b, c, r, Seq::empty())
                &&& final(self).cursor_view() == c
                &&& final(self).dirty_view()
                &&& final(self).undo_view() == old(self).undo_view().push(EditView { insert: false, text: decode_utf8(b.subrange(c, r)), position: c })
                &&& final(self).redo_view() == Seq::<EditView>::empty()
                &&& final(self).path_view() == old(self).path_view()
            },
            final(self).wf(),
            old(self).history_ok() ==> final(self).history_ok(),
            undo_all(final(self).bytes(), final(self).undo_view()) == undo_all(old(self).bytes(), old(self).undo_view()),
    {
        let b = string_bytes(&self.text);
        let len = b.len();
        if self.cursor >= len {
            return;
        }
        let ghost b0 = self.bytes();
        let c = self.cursor;
        let mut r = c + 1;
        proof {
            lemma_char_start_after(b0, c + 1);
        }
        while r < len && b[r] >= 0x80 && b[r] <= 0xbf
            invariant
                b@ == b0,
                len == b0.len(),
                c < r <= len,
                char_start_at_or_after(b0, r as int) == char_start_at_or_after(b0, c + 1),
            decreases len - r,
        {
            r = r + 1;
        }
        let deleted = substr(self.text.as_str(), c, r).to_owned();
        let token = EditToken { kind: EditKind::Delete(deleted), position: c };
        let ghost t = token@;
        proof {
            lemma_utf8_facts(self.text@);
            lemma_utf8_facts(t.text);
            lemma_undo_redo_inverse(b0, t);
            assert(redo_exact(b0, t));
        }
        self.push_undo(token);
        string_drain(&mut self.text, c, r);
        self.dirty = true;
        self.rebuild_line_starts();
        proof {
            assert(self.bytes() == redo_result(b0, t));
            lemma_undo_all_push(b0, self.bytes(), old(self).undo_view(), t);
            if old(self).history_ok() {
                lemma_push_ok(b0, self.bytes(), old(self).undo_view(), t);
            }
        }
    }

    /// Moves the cursor back over one character (nothing at the start).
    pub fn move_left(&mut self)
        requires
            old(self).cursor_ok(),
        ensures
            final(self).cursor_view() == if old(self).cursor_view() == 0 {
                0
            } else {
                char_start_at_or_before(old(self).bytes(), old(self).cursor_view() - 1)
            },
            final(self).text_view() == old(self).text_view(),
            final(self).dirty_view() == old(self).dirty_view(),
            final(self).path_view() == old(self).path_view(),
            final(self).undo_view() == old(self).undo_view(),
            final(self).redo_view() == old(self).redo_view(),
            final(self).cursor_ok(),
            final(self).lines_ok() == old(self).lines_ok(),
            final(self).history_ok() == old(self).history_ok(),
    {
        if self.cursor == 0 {
            return;
        }
        let ghost b0 = self.bytes();
        let b = string_bytes(&self.text);
        let mut q = self.cursor - 1;
        proof {
            lemma_char_start_before(b0, self.cursor - 1);
        }
        while q > 0 && b[q] >= 0x80 && b[q] <= 0xbf
            invariant
                b@ == b0,
                0 <= q < b0.len(),
                char_start_at_or_before(b0, q as int) == char_start_at_or_before(
                    b0,
                    old(self).cursor - 1,
                ),
            decreases q,
        {
            q = q - 1;
        }
        self.cursor = q;
    }

    /// Moves the cursor forward over one character (nothing at the end).
    pub fn move_right(&mut self)
        requires
            old(self).cursor_ok(),
        ensures
            final(self).cursor_view() == if old(self).cursor_view() >= old(self).bytes().len() {
                old(self).cursor_view()
            } else {
                char_start_at_or_after(old(self).bytes(), old(self).cursor_view() + 1)
            },
            final(self).text_view() == old(self).text_view(),
            final(self).dirty_view() == old(self).dirty_view(),
            final(self).path_view() == old(self).path_view(),
            final(self).undo_view() == old(self).undo_view(),
            final(self).redo_view() == old(self).redo_view(),
            final(self).cursor_ok(),
            final(self).lines_ok() == old(self).lines_ok(),
            final(self).history_ok() == old(self).history_ok(),
    {
        let b = string_bytes(&self.text);
        let len = b.len();
        if self.cursor >= len {
            return;
        }
        let ghost b0 = self.bytes();
        let mut r = self.cursor + 1;
        proof {
            lemma_char_start_after(b0, self.cursor + 1);
        }
        while r < len && b[r] >= 0x80 && b[r] <= 0xbf
            invariant
                b@ == b0,
                len == b0.len(),
                old(self).cursor < r <= len,
                char_start_at_or_after(b0, r as int) == char_start_at_or_after(
                    b0,
                    old(self).cursor + 1,
                ),
            decreases len - r,
        {
            r = r + 1;
        }
        self.cursor = r;
    }

    /// Undoes the latest undo record: the text and cursor return to before that edit, and the
    /// record moves to the redo history. With no undo history nothing changes.
    #[verifier::rlimit(40)]
    pub fn undo(&mut self)
        requires
            old(self).undo_applicable(),
        ensures
            old(self).undo_view().len() == 0 ==> *final(self) == *old(self),
            old(self).undo_view().len() > 0 ==> {
                let t = old(self).undo_view().last();
                &&& final(self).bytes() == undo_result(old(self).bytes(), t)
                &&& final(self).cursor_view() == undo_cursor(t)
                &&& final(self).dirty_view()
                &&& final(self).undo_view() == old(self).undo_view().drop_last()
                &&& final(self).redo_view() == old(self).redo_view().push(t)
                &&& final(self).path_view() == old(self).path_view()
                &&& final(self).wf()
            },
            old(self).wf() ==> final(self).wf(),
            old(self).history_ok() ==> final(self).history_ok(),
            undo_all(final(self).bytes(), final(self).undo_view()) == undo_all(old(self).bytes(), old(self).undo_view()),
    {
        if self.undo_stack.len() == 0 {
            return;
        }
        let ghost b0 = self.bytes();
        let ghost old_undo = self.undo_stack@;
        let ghost old_redo = self.redo_stack@;
        let total0 = string_bytes(&self.text).len();
        if let Some(token) = self.undo_stack.pop() {
            let ghost t = token@;
            proof {
                assert(old_undo.drop_last().map_values(|t: EditToken| t@) =~= old(
                    self,
                ).undo_view().drop_last());
                lemma_utf8_facts(old(self).text@);
                lemma_utf8_facts(t.text);
                lemma_undo_redo_inverse(b0, t);
            }
            self.cursor = token.position;
            match &token.kind {
                EditKind::Insert(text) => {
                    let n = string_bytes(text).len();
                    string_drain(&mut self.text, self.cursor, self.cursor + n);
                },
                EditKind::Delete(text) => {
                    string_insert_str(&mut self.text, self.cursor, text.as_str());
                    let total = string_bytes(&self.text).len();
                    let n = string_bytes(text).len();
                    assert(self.cursor + n <= total);
                    self.cursor = self.cursor + n;
                },
            }
            self.redo_stack.push(token);
            self.dirty = true;
            self.rebuild_line_starts();
            proof {
                assert(self.redo_stack@.map_values(|t: EditToken| t@) =~= old(
                    self,
                ).redo_view().push(t));
                assert(self.bytes() == undo_result(b0, t));
                if old(self).history_ok() {
                    assert(old(self).redo_view().push(t).drop_last() =~= old(self).redo_view());
                }
            }
        }
    }

    /// Redoes the latest undone record: the text and cursor return to after that edit, and the
    /// record moves back to the undo history. With no redo history nothing changes.
    #[verifier::rlimit(40)]
    pub fn redo(&mut self)
        requires
            old(self).redo_applicable(),
        ensures
            old(self).redo_view().len() == 0 ==> *final(self) == *old(self),
            old(self).redo_view().len() > 0 ==> {
                let t = old(self).redo_view().last();
                &&& final(self).bytes() == redo_result(old(self).bytes(), t)
                &&& final(self).cursor_view() == redo_cursor(t)
                &&& final(self).dirty_view()
                &&& final(self).undo_view() == old(self).undo_view().push(t)
                &&& final(self).redo_view() == old(self).redo_view().drop_last()
                &&& final(self).path_view() == old(self).path_view()
                &&& final(self).wf()
            },
            old(self).wf() ==> final(self).wf(),
            old(self).history_ok() ==> final(self).history_ok(),
            old(self).history_ok() ==> undo_all(final(self).bytes(), final(self).undo_view()) == undo_all(old(self).bytes(), old(self).undo_view()),
    {
        if self.redo_stack.len() == 0 {
            return;
        }
        let ghost b0 = self.bytes();
        let ghost old_redo = self.redo_stack@;
        let total0 = string_bytes(&self.text).len();
        if let Some(token) = self.redo_stack.pop() {
            let ghost t = token@;
            proof {
                assert(old_redo.drop_last().map_values(|t: EditToken| t@) =~= old(
                    self,
                ).redo_view().drop_last());
                lemma_utf8_facts(old(self).text@);
                lemma_utf8_facts(t.text);
                lemma_undo_redo_inverse(b0, t);
            }
            match &token.kind {
                EditKind::Insert(text) => {
                    self.cursor = token.position;
                    string_insert_str(&mut self.text, self.cursor, text.as_str());
                    let total = string_bytes(&self.text).len();
                    let n = string_bytes(text).len();
                    assert(self.cursor + n <= total);
                    self.cursor = self.cursor + n;
                },
                EditKind::Delete(text) => {
                    self.cursor = token.position;
                    let n = string_bytes(text).len();
                    string_drain(&mut self.text, self.cursor, self.cursor + n);
                },
            }
            self.undo_stack.push(token);
            self.dirty = true;
            self.rebuild_line_starts();
            proof {
                assert(self.undo_stack@.map_values(|t: EditToken| t@) =~= old(
                    self,
                ).undo_view().push(t));
                assert(self.bytes() == redo_result(b0, t));
                if old(self).history_ok() {
                    assert(old(self).undo_view().push(t).drop_last() =~= old(self).undo_view());
                    lemma_undo_all_push(b0, self.bytes(), old(self).undo_view(), t);
                }
            }
        }
    }

    /// Whether there is an edit to undo.
    pub fn can_undo(&self) -> (r: bool)
        ensures
            r == (self.undo_view().len() > 0),
    {
        !self.undo_stack.is_empty()
    }

    /// Whether there is an undone edit to redo.
    pub fn can_redo(&self) -> (r: bool)
        ensures
            r == (self.redo_view().len() > 0),
    {
        !self.redo_stack.is_empty()
    }

    /// Number of lines (a text ending in a newline has an empty last line).
    pub fn line_count(&self) -> (r: usize)
        requires
            self.lines_ok(),
        ensures
            r == line_starts(self.bytes()).len(),
    {
        self.line_starts.len()
    }

    /// 1-based line and 0-based column (in characters) of the cursor.
    pub fn cursor_line_col(&self) -> (r: (usize, usize))
        requires
            self.wf(),
        ensures
            r.0 == line_of(self.bytes(), self.cursor_view()),
            r.1 == col_of(self.bytes(), self.cursor_view()),
            1 <= r.0 <= line_starts(self.bytes()).len(),
            line_starts(self.bytes())[r.0 - 1] <= self.cursor_view(),
            r.0 < line_starts(self.bytes()).len() ==> self.cursor_view() < line_starts(
                self.bytes(),
            )[r.0 as int],
    {
        let ghost b = self.bytes();
        let ghost s = line_starts(b);
        proof {
            lemma_utf8_facts(self.text@);
            lemma_line_starts(b);
        }
        let c = self.cursor;
        let mut lo: usize = 0;
        let mut hi: usize = self.line_starts.len();
        while lo < hi
            invariant
                self.line_starts@ == s,
                strictly_sorted(s),
                0 <= lo <= hi <= s.len(),
                forall|j: int| 0 <= j < lo ==> s[j] <= c,
                forall|j: int| hi <= j < s.len() ==> s[j] > c,
            decreases hi - lo,
        {
            let mid = lo + (hi - lo) / 2;
            if self.line_starts[mid] <= c {
                lo = mid + 1;
            } else {
                hi = mid;
            }
        }
        proof {
            lemma_count_le(s, c as int, lo as int);
        }
        let line = lo;
        let start = self.line_starts[line - 1];
        let bytes = string_bytes(&self.text);
        let col = count_chars(bytes, start, c);
        (line, col)
    }

    /// Byte offset where 1-based line `line` starts; `None` for line 0 or past the last line.
    pub fn line_start(&self, line: usize) -> (r: Option<usize>)
        requires
            self.lines_ok(),
        ensures
            r is None <==> (line == 0 || line > line_starts(self.bytes()).len()),
            r matches Some(o) ==> o == line_starts(self.bytes())[line - 1],
    {
        if line == 0 || line > self.line_starts.len() {
            return None;
        }
        Some(self.line_starts[line - 1])
    }

    /// The text of 1-based line `line`, with its newline; `None` for line 0 or past the last line.
    pub fn line_text(&self, line: usize) -> (r: Option<&str>)
        requires
            self.lines_ok(),
        ensures
            r is None <==> (line == 0 || line > line_starts(self.bytes()).len()),
            r matches Some(t) ==> utf8(t@) == self.bytes().subrange(
                line_starts(self.bytes())[line - 1] as int,
                line_end(self.bytes(), line as int),
            ),
    {
        let ghost b = self.bytes();
        proof {
            lemma_utf8_facts(self.text@);
            lemma_line_starts(b);
        }
        let start = match self.line_start(line) {
            Some(s) => s,
            None => return None,
        };
        let end = if line < self.line_starts.len() {
            self.line_starts[line]
        } else {
            string_bytes(&self.text).len()
        };
        Some(substr(self.text.as_str(), start, end))
    }

    /// The spaces and tabs that begin the cursor's line.
    pub fn indentation_at_cursor(&self) -> (r: String)
        requires
            self.wf(),
        ensures
            ({
                let b = self.bytes();
                let ls = line_starts(b)[line_of(b, self.cursor_view()) - 1] as int;
                let x = b.subrange(ls, line_end(b, line_of(b, self.cursor_view())));
                utf8(r@) == x.subrange(0, blanks_from(x, 0))
            }),
    {
        let (line, _) = self.cursor_line_col();
        match self.line_text(line) {
            Some(t) => {
                let tb = t.as_bytes();
                let ghost x = tb@;
                let mut k: usize = 0;
                while k < tb.len() && (tb[k] == 32u8 || tb[k] == 9u8)
                    invariant
                        x == tb@,
                        0 <= k <= x.len(),
                        blanks_from(x, k as int) == blanks_from(x, 0),
                        forall|j: int| 0 <= j < k ==> x[j] == 32u8 || x[j] == 9u8,
                    decreases x.len() - k,
                {
                    k = k + 1;
                }
                proof {
                    lemma_utf8_facts(t@);
                    if k > 0 {
                        lemma_after_ascii(x, k as int);
                    }
                }
                substr(t, 0, k).to_owned()
            },
            None => String::new(),
        }
    }

    /// Moves the cursor to the same column of the previous line (clamped to that line), or to
    /// the start of the text from the first line.
    pub fn move_up(&mut self)
        requires
            old(self).wf(),
        ensures
            final(self).cursor_view() == move_up_target(old(self).bytes(), old(self).cursor_view()),
            final(self).text_view() == old(self).text_view(),
            final(self).dirty_view() == old(self).dirty_view(),
            final(self).path_view() == old(self).path_view(),
            final(self).undo_view() == old(self).undo_view(),
            final(self).redo_view() == old(self).redo_view(),
            final(self).wf(),
            final(self).history_ok() == old(self).history_ok(),
    {
        let ghost b = self.bytes();
        proof {
            lemma_utf8_facts(self.text@);
            lemma_line_starts(b);
        }
        let (line, col) = self.cursor_line_col();
        if line <= 1 {
            self.cursor = 0;
            return;
        }
        let ps = self.line_starts[line - 2];
        let pe = self.line_starts[line - 1];
        let bytes = string_bytes(&self.text);
        let n = count_chars(bytes, ps, pe);
        let tc = if n == 0 {
            0
        } else if col < n - 1 {
            col
        } else {
            n - 1
        };
        let off = nth_char_offset(bytes, ps, pe, tc);
        proof {
            lemma_char_offset_from(b.subrange(ps as int, pe as int), 0, tc as nat);
        }
        self.cursor = ps + off;
    }

    /// Moves the cursor to the same column of the next line (clamped to that line), or to the
    /// end of the text from the last line.
    pub fn move_down(&mut self)
        requires
            old(self).wf(),
        ensures
            final(self).cursor_view() == move_down_target(
                old(self).bytes(),
                old(self).cursor_view(),
            ),
            final(self).text_view() == old(self).text_view(),
            final(self).dirty_view() == old(self).dirty_view(),
            final(self).path_view() == old(self).path_view(),
            final(self).undo_view() == old(self).undo_view(),
            final(self).redo_view() == old(self).redo_view(),
            final(self).wf(),
            final(self).history_ok() == old(self).history_ok(),
    {
        let ghost b = self.bytes();
        proof {
            lemma_utf8_facts(self.text@);
            lemma_line_starts(b);
        }
        let (line, col) = self.cursor_line_col();
        let bytes = string_bytes(&self.text);
        if line >= self.line_count() {
            self.cursor = bytes.len();
            return;
        }
        let ns = self.line_starts[line];
        let ne = if line + 1 < self.line_starts.len() {
            self.line_starts[line + 1]
        } else {
            bytes.len()
        };
        let n = count_chars(bytes, ns, ne);
        let tc = if n == 0 {
            0
        } else if col < n - 1 {
            col
        } else {
            n - 1
        };
        let off = nth_char_offset(bytes, ns, ne, tc);
        proof {
            lemma_char_offset_from(b.subrange(ns as int, ne as int), 0, tc as nat);
        }
        self.cursor = ns + off;
    }

    /// Moves the cursor to the start of its line.
    pub fn move_home(&mut self)
        requires
            old(self).wf(),
        ensures
            final(self).cursor_view() == line_starts(old(self).bytes())[line_of(
                old(self).bytes(),
                old(self).cursor_view(),
            ) - 1],
            final(self).text_view() == old(self).text_view(),
            final(self).dirty_view() == old(self).dirty_view(),
            final(self).path_view() == old(self).path_view(),
            final(self).undo_view() == old(self).undo_view(),
            final(self).redo_view() == old(self).redo_view(),
            final(self).wf(),
            final(self).history_ok() == old(self).history_ok(),
    {
        proof {
            lemma_utf8_facts(self.text@);
            lemma_line_starts(self.bytes());
        }
        let line = self.cursor_line_col().0;
        if line <= self.line_starts.len() {
            self.cursor = self.line_starts[line - 1];
        }
    }

    /// Moves the cursor to the end of its line: onto its newline, or to the end of the text on
    /// the last line.
    pub fn move_end(&mut self)
        requires
            old(self).wf(),
        ensures
            final(self).cursor_view() == line_end(
                old(self).bytes(),
                line_of(old(self).bytes(), old(self).cursor_view()),
            ) - if line_of(old(self).bytes(), old(self).cursor_view()) < line_starts(
                old(self).bytes(),
            ).len() {
                1int
            } else {
                0int
            },
            final(self).text_view() == old(self).text_view(),
            final(self).dirty_view() == old(self).dirty_view(),
            final(self).path_view() == old(self).path_view(),
            final(self).undo_view() == old(self).undo_view(),
            final(self).redo_view() == old(self).redo_view(),
            final(self).wf(),
            final(self).history_ok() == old(self).history_ok(),
    {
        let ghost b = self.bytes();
        proof {
            lemma_utf8_facts(self.text@);
            lemma_line_starts(b);
        }
        let line = self.cursor_line_col().0;
        if line <= self.line_starts.len() {
            let end = if line < self.line_starts.len() {
                self.line_starts[line] - 1
            } else {
                string_bytes(&self.text).len()
            };
            proof {
                if line < self.line_starts.len() {
                    let e = line_starts(b)[line as int] as int;
                    lemma_line_starts_upto(b, b.len() as int);
                    assert(e >= 1 && b[e - 1] == 10u8);
                }
            }
            self.cursor = end;
        }
    }

    /// Replaces the whole text by `new_text` as two undo steps (delete all, then insert),
    /// leaving the cursor at the end. Replacing the text by itself changes nothing.
    pub fn replace_all(&mut self, new_text: &str)
        ensures
            old(self).text_view() == new_text@ ==> *final(self) == *old(self),
            old(self).text_view() != new_text@ ==> {
                &&& final(self).text_view() == new_text@
                &&& final(self).cursor_view() == utf8(new_text@).len()
                &&& final(self).dirty_view()
                &&& final(self).undo_view() == old(self).undo_view().push(EditView { insert: false, text: old(self).text_view(), position: 0 }).push(EditView { insert: true, text: new_text@, position: 0 })
                &&& final(self).redo_view() == Seq::<EditView>::empty()
                &&& final(self).path_view() == old(self).path_view()
                &&& final(self).wf()
            },
            old(self).wf() ==> final(self).wf(),
            old(self).history_ok() ==> final(self).history_ok(),
            undo_all(final(self).bytes(), final(self).undo_view()) == undo_all(old(self).bytes(), old(self).undo_view()),
    {
        let old_text = self.text.clone();
        if bytes_eq(string_bytes(&old_text), new_text.as_bytes()) {
            proof {
                crate::text::lemma_utf8_injective(old_text@, new_text@);
            }
            return;
        }
        let ghost b0 = self.bytes();
        let ghost d = EditView { insert: false, text: old_text@, position: 0 };
        let ghost t = EditView { insert: true, text: new_text@, position: 0 };
        proof {
            lemma_utf8_facts(old_text@);
            lemma_utf8_facts(new_text@);
            assert(splice(Seq::<u8>::empty(), 0, 0, b0) =~= b0);
            assert(undo_exact(Seq::<u8>::empty(), d));
            assert(undo_result(Seq::<u8>::empty(), d) == b0);
            let nb = utf8(new_text@);
            assert(nb.subrange(0, nb.len() as int) =~= nb);
            assert(splice(nb, 0, nb.len() as int, Seq::empty()) =~= Seq::<u8>::empty());
            assert(undo_exact(nb, t));
            lemma_undo_all_push(b0, Seq::<u8>::empty(), old(self).undo_view(), d);
            lemma_undo_all_push(Seq::<u8>::empty(), nb, old(self).undo_view().push(d), t);
            if old(self).history_ok() {
                lemma_push_ok(b0, Seq::<u8>::empty(), old(self).undo_view(), d);
                lemma_push_ok(Seq::<u8>::empty(), nb, old(self).undo_view().push(d), t);
            }
        }
        self.push_undo(EditToken { kind: EditKind::Delete(old_text), position: 0 });
        self.text = String::new();
        self.cursor = 0;
        self.push_undo(EditToken { kind: EditKind::Insert(new_text.to_owned()), position: 0 });
        self.text = new_text.to_owned();
        self.cursor = new_text.as_bytes().len();
        self.dirty = true;
        self.rebuild_line_starts();
    }

    /// The file the buffer belongs to, if any.
    pub fn path(&self) -> (r: Option<&str>)
        ensures
            r matches Some(p) ==> self.path_view() == Some(p@),
            r is None <==> self.path_view() is None,
    {
        match &self.path {
            Some(p) => Some(p.as_str()),
            None => None,
        }
    }

    /// Sets (or clears) the file the buffer belongs to.
    pub fn set_path(&mut self, path: Option<String>)
        ensures
            final(self).path_view() == match path {
                Some(p) => Some(p@),
                None => None::<Seq<char>>,
            },
            final(self).text_view() == old(self).text_view(),
            final(self).cursor_view() == old(self).cursor_view(),
            final(self).dirty_view() == old(self).dirty_view(),
            final(self).undo_view() == old(self).undo_view(),
            final(self).redo_view() == old(self).redo_view(),
            final(self).lines_view() == old(self).lines_view(),
    {
        self.path = path;
    }

    /// A buffer for a file that was read: `contents` is what reading `path` gave, text or the
    /// reading error. The buffer holds the file's text, belongs to `path`, is clean, has its
    /// cursor at the start and no history.
    pub fn load(path: &str, contents: Result<String, IoError>) -> (r: Result<Self, AppError>)
        ensures
            contents is Err ==> (r matches Err(AppError::Io(e)) && e == contents->Err_0),
            contents is Ok ==> (r matches Ok(buf) && {
                &&& buf.text_view() == contents->Ok_0@
                &&& buf.path_view() == Some(path@)
                &&& !buf.dirty_view()
                &&& buf.cursor_view() == 0
                &&& buf.undo_view() == Seq::<EditView>::empty()
                &&& buf.redo_view() == Seq::<EditView>::empty()
                &&& buf.wf()
                &&& buf.history_ok()
            }),
    {
        match contents {
            Err(e) => Err(AppError::Io(e)),
            Ok(text) => {
                let mut buf = Self::new();
                buf.text = text;
                buf.path = Some(path.to_owned());
                buf.dirty = false;
                buf.rebuild_line_starts();
                Ok(buf)
            },
        }
    }

    /// Finishes a save to the buffer's own file: `written` is the outcome of writing the text to
    /// that file. Without a file the save fails with "no file path set"; a failed write is
    /// reported as an I/O error; a successful one leaves the buffer clean.
    pub fn save(&mut self, written: Result<(), IoError>) -> (r: Result<(), AppError>)
        ensures
            old(self).path_view() is None ==> (r matches Err(AppError::Io(e)) && e.kind
                == IoKind::NotFound && e.message@ == "no file path set"@),
            old(self).path_view() is Some && written is Err ==> (r matches Err(AppError::Io(e))
                && e == written->Err_0),
            old(self).path_view() is Some && written is Ok ==> r is Ok,
            final(self).dirty_view() == (old(self).dirty_view() && !(old(self).path_view() is Some
                && written is Ok)),
            final(self).text_view() == old(self).text_view(),
            final(self).cursor_view() == old(self).cursor_view(),
            final(self).path_view() == old(self).path_view(),
            final(self).undo_view() == old(self).undo_view(),
            final(self).redo_view() == old(self).redo_view(),
            final(self).lines_view() == old(self).lines_view(),
    {
        match &self.path {
            Some(_) => match written {
                Ok(()) => {
                    self.dirty = false;
                    Ok(())
                },
                Err(e) => Err(AppError::Io(e)),
            },
            None => Err(
                AppError::Io(
                    IoError { kind: IoKind::NotFound, message: String::from_str("no file path set") },
                ),
            ),
        }
    }

    /// Finishes a save under a new file name: `written` is the outcome of writing the text to
    /// `path`. On success the buffer belongs to `path` and is clean; a failed write is reported
    /// as an I/O error and changes nothing.
    pub fn save_as(&mut self, path: &str, written: Result<(), IoError>) -> (r: Result<(), AppError>)
        ensures
            written is Err ==> (r matches Err(AppError::Io(e)) && e == written->Err_0),
            written is Err ==> *final(self) == *old(self),
            written is Ok ==> {
                &&& r is Ok
                &&& final(self).path_view() == Some(path@)
                &&& !final(self).dirty_view()
            },
            final(self).text_view() == old(self).text_view(),
            final(self).cursor_view() == old(self).cursor_view(),
            final(self).undo_view() == old(self).undo_view(),
            final(self).redo_view() == old(self).redo_view(),
            final(self).lines_view() == old(self).lines_view(),
    {
        match written {
            Ok(()) => {
                self.path = Some(path.to_owned());
                self.dirty = false;
                Ok(())
            },
            Err(e) => Err(AppError::Io(e)),
        }
    }

    /// Replaces the bytes `start..end` of the text by `s`, without recording an undo step and
    /// without touching the cursor or the line index (call `sync_after_edit` afterwards).
    pub fn replace_text_range(&mut self, start: usize, end: usize, s: &str)
        requires
            start <= end <= old(self).bytes().len(),
            at_char_start(old(self).bytes(), start as int),
            at_char_start(old(self).bytes(), end as int),
        ensures
            final(self).bytes() == splice(old(self).bytes(), start as int, end as int, utf8(s@)),
            final(self).cursor_view() == old(self).cursor_view(),
            final(self).dirty_view() == old(self).dirty_view(),
            final(self).path_view() == old(self).path_view(),
            final(self).undo_view() == old(self).undo_view(),
            final(self).redo_view() == old(self).redo_view(),
            (old(self).undo_view().len() == 0 && old(self).redo_view().len() == 0)
                ==> final(self).history_ok(),
    {
        let ghost b0 = self.bytes();
        proof {
            lemma_utf8_facts(self.text@);
            assert(splice(b0, start as int, end as int, Seq::empty()).subrange(0, start as int)
                =~= b0.subrange(0, start as int));
            if start < b0.len() - (end - start) {
                assert(splice(b0, start as int, end as int, Seq::empty())[start as int] == b0[end as int]);
            }
        }
        string_drain(&mut self.text, start, end);
        string_insert_str(&mut self.text, start, s);
        proof {
            assert(self.bytes() =~= splice(b0, start as int, end as int, utf8(s@)));
        }
    }

    /// Moves the cursor to byte `c` (the caller keeps it on a character boundary).
    pub fn set_cursor(&mut self, c: usize)
        ensures
            final(self).cursor_view() == c,
            final(self).lines_ok() == old(self).lines_ok(),
            final(self).history_ok() == old(self).history_ok(),
            final(self).text_view() == old(self).text_view(),
            final(self).dirty_view() == old(self).dirty_view(),
            final(self).path_view() == old(self).path_view(),
            final(self).undo_view() == old(self).undo_view(),
            final(self).redo_view() == old(self).redo_view(),
            final(self).lines_view() == old(self).lines_view(),
    {
        self.cursor = c;
    }

    /// The cursor (a byte offset).
    pub fn cursor(&self) -> (r: usize)
        ensures
            r == self.cursor_view(),
    {
        self.cursor
    }

    /// Whether the text changed since it was last saved or loaded.
    pub fn dirty(&self) -> (r: bool)
        ensures
            r == self.dirty_view(),
    {
        self.dirty
    }

    /// The text.
    pub fn text(&self) -> (r: &str)
        ensures
            r@ == self.text_view(),
    {
        self.text.as_str()
    }
}

/// Undoing right after an insertion gives back the text and the cursor from before it.
pub proof fn law_undo_restores_insert(before: EditorBuffer, after: EditorBuffer, s: Seq<char>)
    requires
        before.wf(),
        s.len() > 0,
        after.bytes() == splice(
            before.bytes(),
            before.cursor_view(),
            before.cursor_view(),
            utf8(s),
        ),
        after.undo_view() == before.undo_view().push(EditView { insert: true, text: s, position: before.cursor_view() }),
    ensures
        after.undo_view().len() > 0,
        undo_exact(after.bytes(), after.undo_view().last()),
        undo_result(after.bytes(), after.undo_view().last()) == before.bytes(),
        undo_cursor(after.undo_view().last()) == before.cursor_view(),
{
    let t = EditView { insert: true, text: s, position: before.cursor_view() };
    lemma_utf8_facts(before.text@);
    lemma_undo_redo_inverse(before.bytes(), t);
}

/// Undoing right after a deletion at `start` (by backspace or delete) gives back the text, with
/// the cursor just after the restored characters.
pub proof fn law_undo_restores_delete(
    before: EditorBuffer,
    after: EditorBuffer,
    start: int,
    end: int,
)
    requires
        before.wf(),
        0 <= start < end <= before.bytes().len(),
        at_char_start(before.bytes(), start),
        at_char_start(before.bytes(), end),
        after.bytes() == splice(before.bytes(), start, end, Seq::empty()),
        after.undo_view() == before.undo_view().push(EditView {
                insert: false,
                text: decode_utf8(before.bytes().subrange(start, end)),
                position: start,
            }),
    ensures
        after.undo_view().len() > 0,
        undo_exact(after.bytes(), after.undo_view().last()),
        undo_result(after.bytes(), after.undo_view().last()) == before.bytes(),
        undo_cursor(after.undo_view().last()) == end,
{
    let b = before.bytes();
    let x = b.subrange(start, end);
    lemma_utf8_facts(before.text@);
    crate::text::lemma_char_boundary_iff(b, start);
    crate::text::lemma_char_boundary_iff(b, end);
    valid_utf8_split(b, start);
    let tail = b.subrange(start, b.len() as int);
    crate::text::lemma_char_boundary_iff(tail, end - start);
    assert(end - start == tail.len() || tail[end - start] == b[end]);
    assert(start == 0 || b[start] == tail[0]);
    valid_utf8_split(tail, end - start);
    assert(tail.subrange(0, end - start) =~= x);
    decode_utf8_encode_utf8(x);
    let t = EditView { insert: false, text: decode_utf8(x), position: start };
    assert(ev_bytes(t) == x);
    lemma_undo_redo_inverse(b, t);
    assert(redo_exact(b, t));
}

/// Redoing right after an undo gives back the text from before the undo.
pub proof fn law_redo_restores_undo(before: EditorBuffer, after: EditorBuffer)
    requires
        before.undo_view().len() > 0,
        undo_exact(before.bytes(), before.undo_view().last()),
        after.bytes() == undo_result(before.bytes(), before.undo_view().last()),
        after.redo_view() == before.redo_view().push(before.undo_view().last()),
    ensures
        after.redo_view().len() > 0,
        redo_exact(after.bytes(), after.redo_view().last()),
        redo_result(after.bytes(), after.redo_view().last()) == before.bytes(),
{
    lemma_utf8_facts(before.text@);
    lemma_undo_redo_inverse(before.bytes(), before.undo_view().last());
}

/// Undoing right after a redo gives back the text from before the redo.
pub proof fn law_undo_restores_redo(before: EditorBuffer, after: EditorBuffer)
    requires
        before.redo_view().len() > 0,
        redo_exact(before.bytes(), before.redo_view().last()),
        after.bytes() == redo_result(before.bytes(), before.redo_view().last()),
        after.undo_view() == before.undo_view().push(before.redo_view().last()),
    ensures
        after.undo_view().len() > 0,
        undo_exact(after.bytes(), after.undo_view().last()),
        undo_result(after.bytes(), after.undo_view().last()) == before.bytes(),
{
    lemma_utf8_facts(before.text@);
    lemma_undo_redo_inverse(before.bytes(), before.redo_view().last());
}

/// A consistent history always allows the next undo and redo.
pub proof fn law_history_allows_undo_redo(buf: EditorBuffer)
    requires
        buf.history_ok(),
    ensures
        buf.undo_applicable(),
        buf.redo_applicable(),
{
}

/// One step of a buffer's life that keeps its history consistent, as every method of
/// `EditorBuffer` guarantees.
pub open spec fn keeps_history_ok(a: EditorBuffer, b: EditorBuffer) -> bool {
    a.history_ok() ==> b.history_ok()
}

/// A buffer that starts with a consistent history and changes only by steps that keep it
/// consistent can undo and redo at every point.
pub proof fn law_history_stays_usable(states: Seq<EditorBuffer>)
    requires
        states.len() >= 1,
        states[0].history_ok(),
        forall|i: int| 0 <= i < states.len() - 1 ==> #[trigger] keeps_history_ok(states[i], states[i + 1]),
    ensures
        forall|k: int| 0 <= k < states.len() ==> (#[trigger] states[k]).undo_applicable(),
        forall|k: int| 0 <= k < states.len() ==> (#[trigger] states[k]).redo_applicable(),
{
    assert forall|k: int| 0 <= k < states.len() implies (#[trigger] states[k]).undo_applicable()
        && states[k].redo_applicable() by {
        lemma_history_ok_kept(states, k);
        law_history_allows_undo_redo(states[k]);
    }
}

proof fn lemma_history_ok_kept(states: Seq<EditorBuffer>, n: int)
    requires
        0 <= n < states.len(),
        states[0].history_ok(),
        forall|i: int| 0 <= i < states.len() - 1 ==> #[trigger] keeps_history_ok(states[i], states[i + 1]),
    ensures
        states[n].history_ok(),
    decreases n,
{
    if n > 0 {
        lemma_history_ok_kept(states, n - 1);
        let i = n - 1;
        assert(keeps_history_ok(states[i], states[i + 1]));
        assert(states[i + 1] == states[n]);
    }
}


/// Moving the cursor right and then left brings it back where it was (away from the end).
pub proof fn law_left_undoes_right(buf: EditorBuffer)
    requires
        buf.cursor_ok(),
        buf.cursor_view() < buf.bytes().len(),
    ensures
        ({
            let b = buf.bytes();
            let d = char_start_at_or_after(b, buf.cursor_view() + 1);
            &&& d > buf.cursor_view()
            &&& char_start_at_or_before(b, d - 1) == buf.cursor_view()
        }),
{
    let b = buf.bytes();
    let c = buf.cursor_view();
    lemma_char_start_after(b, c + 1);
    let d = char_start_at_or_after(b, c + 1);
    crate::text::lemma_back_to_start(b, c, d - 1);
}

/// The first `k` lines of `b`, each with its newline, one after the other.
pub open spec fn lines_joined(b: Seq<u8>, k: int) -> Seq<u8>
    decreases k,
{
    if k <= 0 {
        seq![]
    } else {
        lines_joined(b, k - 1) + b.subrange(line_starts(b)[k - 1] as int, line_end(b, k))
    }
}

proof fn lemma_lines_joined(b: Seq<u8>, k: int)
    requires
        valid_utf8(b),
        b.len() <= usize::MAX,
        1 <= k <= line_starts(b).len(),
    ensures
        lines_joined(b, k) == b.subrange(0, line_end(b, k)),
    decreases k,
{
    lemma_line_starts(b);
    let s = line_starts(b);
    assert(s[k - 1] <= line_end(b, k) <= b.len()) by {
        if k < s.len() {
            assert(s[k - 1] < s[k]);
        }
    }
    if k == 1 {
        assert(lines_joined(b, 0) =~= Seq::<u8>::empty());
        assert(lines_joined(b, 1) =~= b.subrange(0, line_end(b, 1)));
    } else {
        lemma_lines_joined(b, k - 1);
        assert(line_end(b, k - 1) == s[k - 1]);
        assert(lines_joined(b, k) =~= b.subrange(0, line_end(b, k)));
    }
}

/// The lines of a text (as `line_text` gives them), one after the other, make up the text.
pub proof fn law_lines_join(text: Seq<char>)
    requires
        utf8(text).len() <= usize::MAX,
    ensures
        lines_joined(utf8(text), line_starts(utf8(text)).len() as int) == utf8(text),
{
    let b = utf8(text);
    lemma_utf8_facts(text);
    lemma_line_starts(b);
    lemma_lines_joined(b, line_starts(b).len() as int);
    assert(b.subrange(0, b.len() as int) =~= b);
}

/// The text of line `k` (1-based), newline included, as `line_text` gives it.
pub open spec fn line_piece(b: Seq<u8>, k: int) -> Seq<u8> {
    b.subrange(line_starts(b)[k - 1] as int, line_end(b, k))
}

/// The line index of a text: the first line starts at 0 and line `k + 1` one past newline
/// number `k`, so there is one more line than newlines; every line but the last ends in a
/// newline and holds no other, and the last line holds none.
#[verifier::rlimit(60)]
#[verifier::spinoff_prover]
pub proof fn law_line_breaks(text: Seq<char>)
    requires
        utf8(text).len() <= usize::MAX,
    ensures
        ({
            let b = utf8(text);
            let s = line_starts(b);
            &&& s[0] == 0
            &&& s.len() == 1 + newlines_before(b, b.len() as int)
            &&& forall|k: int|
                1 <= k < s.len() ==> b[#[trigger] s[k] - 1] == 10u8 && newlines_before(b, s[k] - 1)
                    == k - 1
            &&& forall|k: int|
                1 <= k < s.len() ==> {
                    let p = #[trigger] line_piece(b, k);
                    &&& p.len() > 0
                    &&& p.last() == 10u8
                    &&& forall|j: int| 0 <= j < p.len() - 1 ==> p[j] != 10u8
                }
            &&& forall|j: int|
                0 <= j < line_piece(b, s.len() as int).len() ==> line_piece(b, s.len() as int)[j]
                    != 10u8
        }),
{
    let b = utf8(text);
    let s = line_starts(b);
    crate::text::lemma_line_breaks_upto(b, b.len() as int);
    law_line_count(b);
    assert forall|k: int| 1 <= k < s.len() implies {
        let p = #[trigger] line_piece(b, k);
        &&& p.len() > 0
        &&& p.last() == 10u8
        &&& forall|j: int| 0 <= j < p.len() - 1 ==> p[j] != 10u8
    } by {
        let p = line_piece(b, k);
        assert(line_end(b, k) == s[k]);
        assert(s[k - 1] < s[k] && b[s[k] - 1] == 10u8);
        assert forall|j: int| 0 <= j < p.len() - 1 implies p[j] != 10u8 by {
            assert(p[j] == b[s[k - 1] + j]);
            assert(s[k - 1] <= s[k - 1] + j < s[k] - 1);
        }
    }
    let last = line_piece(b, s.len() as int);
    assert forall|j: int| 0 <= j < last.len() implies last[j] != 10u8 by {
        assert(last[j] == b[s.last() + j]);
    }
}

/// One step of a buffer's life that keeps where undoing every record leads: what each edit
/// (`insert_str`, `backspace`, `delete`, `replace_all`), `undo` and `redo` guarantees.
pub open spec fn keeps_undo_target(a: EditorBuffer, b: EditorBuffer) -> bool {
    undo_all(b.bytes(), b.undo_view()) == undo_all(a.bytes(), a.undo_view())
}

/// Edits and undos from a buffer with no undo history, ending with no undo history again (such
/// as `n` edits followed by `n` undos), give back the text the buffer started with.
pub proof fn law_undos_restore_text(states: Seq<EditorBuffer>)
    requires
        states.len() >= 1,
        states[0].undo_view().len() == 0,
        states.last().undo_view().len() == 0,
        forall|i: int| 0 <= i < states.len() - 1 ==> #[trigger] keeps_undo_target(states[i], states[i + 1]),
    ensures
        states.last().bytes() == states[0].bytes(),
{
    lemma_undo_target_kept(states, states.len() - 1);
}

proof fn lemma_undo_target_kept(states: Seq<EditorBuffer>, n: int)
    requires
        0 <= n < states.len(),
        forall|i: int| 0 <= i < states.len() - 1 ==> #[trigger] keeps_undo_target(states[i], states[i + 1]),
    ensures
        undo_all(states[n].bytes(), states[n].undo_view()) == undo_all(states[0].bytes(), states[0].undo_view()),
    decreases n,
{
    if n > 0 {
        lemma_undo_target_kept(states, n - 1);
        let i = n - 1;
        assert(keeps_undo_target(states[i], states[i + 1]));
        assert(states[i + 1] == states[n]);
    }
}

/// With no undo history, undoing everything leaves the text as it is: the text a buffer is
/// created or opened with is where undoing all later edits leads (each edit and each undo keeps
/// `undo_all` of the buffer unchanged, and each undo removes one record).
pub proof fn law_history_starts_at_text(buf: EditorBuffer)
    requires
        buf.undo_view().len() == 0,
    ensures
        undo_all(buf.bytes(), buf.undo_view()) == buf.bytes(),
{
}

} // verus!
