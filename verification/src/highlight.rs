//! Syntax highlighting of the editor text: the byte ranges to draw, each with its token kind,
//! whether it lies on a line with a build error, and whether it is selected.
use vstd::prelude::*;

use crate::lexer::{lex, lemma_lex_covers, tokenize, Token, TokenType};
use crate::text::{newlines_before, utf8};

verus! {

/// A run of text drawn in one style.
#[derive(Debug, Clone, Copy)]
pub struct Section {
    pub start: usize,
    pub end: usize,
    pub token_type: TokenType,
    /// The run's token starts on a line with a build error.
    pub on_error_line: bool,
    /// The run is inside the selection.
    pub selected: bool,
}

/// A run of the token `t`.
pub open spec fn run(t: Token, start: int, end: int, err: bool, selected: bool) -> Section {
    Section {
        start: start as usize,
        end: end as usize,
        token_type: t.token_type,
        on_error_line: err,
        selected,
    }
}

/// The runs of token `t`: split where it meets the selection `sel` (a byte range), else whole.
pub open spec fn token_runs(t: Token, err: bool, sel: Option<(usize, usize)>) -> Seq<Section> {
    match sel {
        Some((a, z)) => {
            let os = if t.start >= a { t.start as int } else { a as int };
            let oe = if t.end <= z { t.end as int } else { z as int };
            if os < oe {
                (if t.start < os {
                    seq![run(t, t.start as int, os, err, false)]
                } else {
                    seq![]
                }) + seq![run(t, os, oe, err, true)] + (if oe < t.end {
                    seq![run(t, oe, t.end as int, err, false)]
                } else {
                    seq![]
                })
            } else {
                seq![run(t, t.start as int, t.end as int, err, false)]
            }
        },
        None => seq![run(t, t.start as int, t.end as int, err, false)],
    }
}

/// The runs of the tokens `ts` of text `b`, where `errs` are the 1-based lines with errors.
pub open spec fn runs_of(ts: Seq<Token>, b: Seq<u8>, errs: Seq<usize>, sel: Option<(usize, usize)>) -> Seq<
    Section,
>
    decreases ts.len(),
{
    if ts.len() == 0 {
        seq![]
    } else {
        let t = ts.last();
        runs_of(ts.drop_last(), b, errs, sel) + token_runs(
            t,
            errs.contains((1 + newlines_before(b, t.start as int)) as usize),
            sel,
        )
    }
}

/// The runs to draw for `text`: its tokens (see `lexer::lex`) in order, each marked when its
/// first byte lies on one of the 1-based `error_lines`, and split at the edges of the selected
/// byte range.
pub open spec fn highlight_spec(text: Seq<char>, error_lines: Seq<usize>, sel: Option<(usize, usize)>) -> Seq<
    Section,
> {
    runs_of(lex(utf8(text), 0, true), utf8(text), error_lines, sel)
}

/// In a chain of non-empty ranges, each starting where the previous ended, that ends at `n`,
/// every range ends at or before `n`.
proof fn lemma_end_le(ts: Seq<Token>, n: int, k: int)
    requires
        0 <= k < ts.len(),
        ts.last().end == n,
        forall|q: int| 0 <= q < ts.len() ==> #[trigger] ts[q].start < ts[q].end,
        forall|q: int| 0 <= q < ts.len() - 1 ==> #[trigger] ts[q].end == ts[q + 1].start,
    ensures
        ts[k].end <= n,
    decreases ts.len() - k,
{
    if k + 1 < ts.len() {
        lemma_end_le(ts, n, k + 1);
        assert(ts[k].end == ts[k + 1].start);
        assert(ts[k + 1].start < ts[k + 1].end);
    }
}

fn holds(v: &[usize], x: usize) -> (r: bool)
    ensures
        r == v@.contains(x),
{
    let mut i: usize = 0;
    while i < v.len()
        invariant
            0 <= i <= v@.len(),
            forall|j: int| 0 <= j < i ==> v@[j] != x,
        decreases v@.len() - i,
    {
        if v[i] == x {
            assert(v@[i as int] == x);
            return true;
        }
        i = i + 1;
    }
    false
}

fn push_runs(out: &mut Vec<Section>, t: Token, err: bool, sel: Option<(usize, usize)>)
    requires
        t.start <= t.end,
    ensures
        final(out)@ == old(out)@ + token_runs(t, err, sel),
{
    match sel {
        Some((a, z)) => {
            let os = if t.start >= a {
                t.start
            } else {
                a
            };
            let oe = if t.end <= z {
                t.end
            } else {
                z
            };
            if os < oe {
                let ghost o0 = out@;
                if t.start < os {
                    out.push(
                        Section {
                            start: t.start,
                            end: os,
                            token_type: t.token_type,
                            on_error_line: err,
                            selected: false,
                        },
                    );
                }
                out.push(
                    Section {
                        start: os,
                        end: oe,
                        token_type: t.token_type,
                        on_error_line: err,
                        selected: true,
                    },
                );
                if oe < t.end {
                    out.push(
                        Section {
                            start: oe,
                            end: t.end,
                            token_type: t.token_type,
                            on_error_line: err,
                            selected: false,
                        },
                    );
                }
                assert(out@ =~= o0 + token_runs(t, err, sel));
            } else {
                out.push(
                    Section {
                        start: t.start,
                        end: t.end,
                        token_type: t.token_type,
                        on_error_line: err,
                        selected: false,
                    },
                );
                assert(out@ =~= old(out)@ + token_runs(t, err, sel));
            }
        },
        None => {
            out.push(
                Section {
                    start: t.start,
                    end: t.end,
                    token_type: t.token_type,
                    on_error_line: err,
                    selected: false,
                },
            );
            assert(out@ =~= old(out)@ + token_runs(t, err, sel));
        },
    }
}

/// The runs to draw for `text` (see `highlight_spec`); `selection` is a byte range.
pub fn highlight_sections(text: &str, error_lines: &[usize], selection: Option<(usize, usize)>) -> (r:
    Vec<Section>)
    ensures
        r@ == highlight_spec(text@, error_lines@, selection),
{
    let tokens = tokenize(text);
    let b = text.as_bytes();
    let blen = b.len();
    let ghost bs = utf8(text@);
    proof {
        lemma_lex_covers(bs, 0, true);
    }
    let mut out: Vec<Section> = Vec::new();
    let mut p: usize = 0;
    let mut nl: usize = 0;
    let mut k: usize = 0;
    while k < tokens.len()
        invariant
            b@ == bs,
            tokens@ == lex(bs, 0, true),
            0 <= k <= tokens@.len(),
            p <= b@.len(),
            nl == newlines_before(bs, p as int),
            nl <= p,
            k < tokens@.len() ==> p <= tokens@[k as int].start,
            forall|q: int| 0 <= q < tokens@.len() ==> #[trigger] tokens@[q].start < tokens@[q].end,
            forall|q: int| 0 <= q < tokens@.len() - 1 ==> #[trigger] tokens@[q].end == tokens@[q + 1].start,
            tokens@.len() > 0 ==> tokens@.last().end == bs.len(),
            out@ == runs_of(tokens@.take(k as int), bs, error_lines@, selection),
        decreases tokens@.len() - k,
    {
        let t = tokens[k];
        proof {
            if k + 1 < tokens@.len() {
                assert(tokens@[k as int].end == tokens@[k + 1].start);
            }
            lemma_end_le(tokens@, bs.len() as int, k as int);
        }
        while p < t.start
            invariant
                b@ == bs,
                p <= t.start <= t.end <= bs.len(),
                nl == newlines_before(bs, p as int),
                nl <= p,
            decreases t.start - p,
        {
            if b[p] == 10 {
                nl = nl + 1;
            }
            p = p + 1;
        }
        let line = nl + 1;
        let err = holds(error_lines, line);
        push_runs(&mut out, t, err, selection);
        proof {
            assert(tokens@.take(k + 1).drop_last() =~= tokens@.take(k as int));
            assert(tokens@.take(k + 1).last() == t);
        }
        k = k + 1;
    }
    proof {
        assert(tokens@.take(k as int) =~= tokens@);
    }
    out
}

/// The runs `s` cover the bytes `a..b` in order: each non-empty, each starting where the previous
/// one ended.
pub open spec fn runs_chain(s: Seq<Section>, a: int, b: int) -> bool {
    &&& (s.len() == 0 ==> a == b)
    &&& (s.len() > 0 ==> s[0].start == a && s.last().end == b)
    &&& forall|k: int| 0 <= k < s.len() ==> #[trigger] s[k].start < s[k].end
    &&& forall|k: int| 0 <= k < s.len() - 1 ==> #[trigger] s[k].end == s[k + 1].start
}

proof fn lemma_chain_concat(s1: Seq<Section>, s2: Seq<Section>, a: int, b: int, c: int)
    requires
        runs_chain(s1, a, b),
        runs_chain(s2, b, c),
    ensures
        runs_chain(s1 + s2, a, c),
{
    let s = s1 + s2;
    if s1.len() == 0 {
        assert(s =~= s2);
    } else if s2.len() == 0 {
        assert(s =~= s1);
    } else {
        assert(s[0] == s1[0]);
        assert(s.last() == s2.last());
        assert forall|k: int| 0 <= k < s.len() implies #[trigger] s[k].start < s[k].end by {
            if k >= s1.len() {
                assert(s[k] == s2[k - s1.len()]);
            }
        }
        assert forall|k: int| 0 <= k < s.len() - 1 implies #[trigger] s[k].end == s[k + 1].start by {
            if k >= s1.len() {
                assert(s[k] == s2[k - s1.len()]);
                assert(s[k + 1] == s2[k + 1 - s1.len()]);
            } else if k == s1.len() - 1 {
                assert(s[k] == s1.last());
                assert(s[k + 1] == s2[0]);
            }
        }
    }
}

proof fn lemma_token_runs_chain(t: Token, err: bool, sel: Option<(usize, usize)>)
    requires
        t.start < t.end,
    ensures
        runs_chain(token_runs(t, err, sel), t.start as int, t.end as int),
{
    let r = token_runs(t, err, sel);
    match sel {
        Some((a, z)) => {
            let os = if t.start >= a { t.start as int } else { a as int };
            let oe = if t.end <= z { t.end as int } else { z as int };
            if os < oe {
                let pre: Seq<Section> = if t.start < os {
                    seq![run(t, t.start as int, os, err, false)]
                } else {
                    seq![]
                };
                let mid: Seq<Section> = seq![run(t, os, oe, err, true)];
                let post: Seq<Section> = if oe < t.end {
                    seq![run(t, oe, t.end as int, err, false)]
                } else {
                    seq![]
                };
                assert(runs_chain(pre, t.start as int, os));
                assert(runs_chain(mid, os, oe));
                assert(runs_chain(post, oe, t.end as int));
                lemma_chain_concat(pre, mid, t.start as int, os, oe);
                lemma_chain_concat(pre + mid, post, t.start as int, oe, t.end as int);
            }
        },
        None => {},
    }
}

proof fn lemma_runs_of_chain(ts: Seq<Token>, b: Seq<u8>, errs: Seq<usize>, sel: Option<(usize, usize)>)
    requires
        ts.len() > 0,
        forall|q: int| 0 <= q < ts.len() ==> #[trigger] ts[q].start < ts[q].end,
        forall|q: int| 0 <= q < ts.len() - 1 ==> #[trigger] ts[q].end == ts[q + 1].start,
    ensures
        runs_chain(runs_of(ts, b, errs, sel), ts[0].start as int, ts.last().end as int),
    decreases ts.len(),
{
    let t = ts.last();
    let err = errs.contains((1 + newlines_before(b, t.start as int)) as usize);
    lemma_token_runs_chain(t, err, sel);
    if ts.len() == 1 {
        assert(runs_of(ts.drop_last(), b, errs, sel) =~= Seq::<Section>::empty());
        assert(runs_chain(Seq::<Section>::empty(), t.start as int, t.start as int));
        lemma_chain_concat(Seq::<Section>::empty(), token_runs(t, err, sel), t.start as int, t.start as int, t.end as int);
    } else {
        let init = ts.drop_last();
        assert forall|q: int| 0 <= q < init.len() implies #[trigger] init[q].start < init[q].end by {
            assert(init[q] == ts[q]);
        }
        assert forall|q: int| 0 <= q < init.len() - 1 implies #[trigger] init[q].end == init[q + 1].start by {
            assert(init[q] == ts[q]);
            assert(init[q + 1] == ts[q + 1]);
        }
        lemma_runs_of_chain(init, b, errs, sel);
        assert(init.last() == ts[ts.len() - 2]);
        assert(ts[ts.len() - 2].end == ts[ts.len() - 1].start);
        lemma_chain_concat(
            runs_of(init, b, errs, sel),
            token_runs(t, err, sel),
            ts[0].start as int,
            t.start as int,
            t.end as int,
        );
    }
}

/// The runs drawn for a text cover it exactly, in order: every byte lies in exactly one run.
pub proof fn law_runs_cover_text(text: Seq<char>, error_lines: Seq<usize>, sel: Option<(usize, usize)>)
    requires
        utf8(text).len() <= usize::MAX,
    ensures
        runs_chain(highlight_spec(text, error_lines, sel), 0, utf8(text).len() as int),
{
    let b = utf8(text);
    lemma_lex_covers(b, 0, true);
    let ts = lex(b, 0, true);
    if ts.len() == 0 {
        assert(highlight_spec(text, error_lines, sel) =~= Seq::<Section>::empty());
    } else {
        lemma_runs_of_chain(ts, b, error_lines, sel);
    }
}

} // verus!
