//! Splitting LaTeX source into highlighted tokens: commands, math delimiters, braces, comments
//! and plain text.
//!
//! A token is recognised, at the leftmost position where one can start, by the first of these
//! rules that applies there:
//! a backslash followed by a run of ASCII letters or by any one other character (a command);
//! `%` up to the end of the line (a comment; when tokenizing a single line, only a `%` with no
//! newline after it); `$$`; `$`; `{` or `}`. The text between recognised tokens becomes plain
//! text tokens.
use vstd::prelude::*;

use crate::text::{char_start_at_or_after, lemma_char_start_after, lemma_no_newline_byte, utf8};

verus! {

/// The kind of a highlighted token.
#[derive(Debug, Clone, Copy, PartialEq, Eq, Structural)]
pub enum TokenType {
    Command,
    MathDollar,
    MathDoubleDollar,
    OpenBrace,
    CloseBrace,
    Comment,
    Text,
}

/// A token: its kind and the byte range `start..end` it covers.
#[derive(Debug, Clone, Copy)]
pub struct Token {
    pub token_type: TokenType,
    pub start: usize,
    pub end: usize,
}

/// An ASCII letter.
pub open spec fn is_letter(c: u8) -> bool {
    (65 <= c <= 90) || (97 <= c <= 122)
}

/// The end of the run of ASCII letters starting at byte `i`.
pub open spec fn letters_end(b: Seq<u8>, i: int) -> int
    decreases b.len() - i,
{
    if 0 <= i < b.len() && is_letter(b[i]) {
        letters_end(b, i + 1)
    } else {
        i
    }
}

/// The first newline at or after byte `i`, or the end of the text.
pub open spec fn newline_or_end(b: Seq<u8>, i: int) -> int
    decreases b.len() - i,
{
    if i >= b.len() {
        b.len() as int
    } else if i >= 0 && b[i] == 10u8 {
        i
    } else {
        newline_or_end(b, i + 1)
    }
}

/// The token recognised at byte `i`, as its end and kind, if one starts there.
/// `multiline` lets a comment end at the end of its line; otherwise only at the end of the text.
pub open spec fn match_at(b: Seq<u8>, i: int, multiline: bool) -> Option<(int, TokenType)> {
    if i < 0 || i >= b.len() {
        None
    } else if b[i] == 92u8 {
        if i + 1 >= b.len() {
            None
        } else if is_letter(b[i + 1]) {
            Some((letters_end(b, i + 1), TokenType::Command))
        } else {
            Some((char_start_at_or_after(b, i + 2), TokenType::Command))
        }
    } else if b[i] == 37u8 {
        let e = newline_or_end(b, i + 1);
        if multiline || e == b.len() {
            Some((e, TokenType::Comment))
        } else {
            None
        }
    } else if b[i] == 36u8 {
        if i + 1 < b.len() && b[i + 1] == 36u8 {
            Some((i + 2, TokenType::MathDoubleDollar))
        } else {
            Some((i + 1, TokenType::MathDollar))
        }
    } else if b[i] == 123u8 {
        Some((i + 1, TokenType::OpenBrace))
    } else if b[i] == 125u8 {
        Some((i + 1, TokenType::CloseBrace))
    } else {
        None
    }
}

/// The leftmost token recognised at or after byte `i`, as start, end and kind.
pub open spec fn first_match_from(b: Seq<u8>, i: int, multiline: bool) -> Option<
    (int, int, TokenType),
>
    decreases b.len() - i,
{
    if i < 0 || i >= b.len() {
        None
    } else {
        match match_at(b, i, multiline) {
            Some((e, ty)) => Some((i, e, ty)),
            None => first_match_from(b, i + 1, multiline),
        }
    }
}

/// A token value.
pub open spec fn tok(ty: TokenType, s: int, e: int) -> Token {
    Token { token_type: ty, start: s as usize, end: e as usize }
}

/// The tokens of `b` from byte `pos` on: plain text up to each recognised token, the token,
/// and plain text after the last one.
pub open spec fn lex(b: Seq<u8>, pos: int, multiline: bool) -> Seq<Token>
    decreases b.len() - pos,
{
    if pos < 0 || pos > b.len() {
        seq![]
    } else {
        match first_match_from(b, pos, multiline) {
            None => if pos < b.len() {
                seq![tok(TokenType::Text, pos, b.len() as int)]
            } else {
                seq![]
            },
            Some((s, e, ty)) => if pos < s <= b.len() && s < e <= b.len() {
                seq![tok(TokenType::Text, pos, s), tok(ty, s, e)] + lex(b, e, multiline)
            } else if pos == s && s < e <= b.len() {
                seq![tok(ty, s, e)] + lex(b, e, multiline)
            } else {
                seq![]
            },
        }
    }
}

proof fn lemma_letters_end(b: Seq<u8>, i: int)
    requires
        0 <= i,
    ensures
        i <= b.len() ==> i <= letters_end(b, i) <= b.len(),
    decreases b.len() - i,
{
    if 0 <= i < b.len() && is_letter(b[i]) {
        lemma_letters_end(b, i + 1);
    }
}

proof fn lemma_newline_or_end(b: Seq<u8>, i: int)
    requires
        0 <= i,
    ensures
        i <= b.len() ==> i <= newline_or_end(b, i) <= b.len(),
    decreases b.len() - i,
{
    if i < b.len() && b[i] != 10u8 {
        lemma_newline_or_end(b, i + 1);
    }
}

/// A recognised token is non-empty and inside the text.
pub proof fn lemma_match_at(b: Seq<u8>, i: int, multiline: bool)
    ensures
        match_at(b, i, multiline) matches Some((e, _)) ==> 0 <= i < e <= b.len(),
{
    if 0 <= i < b.len() {
        lemma_letters_end(b, i + 1);
        lemma_newline_or_end(b, i + 1);
        lemma_char_start_after(b, i + 2);
    }
}

/// The leftmost match lies inside the text, at or after `i`.
pub proof fn lemma_first_match_from(b: Seq<u8>, i: int, multiline: bool)
    ensures
        first_match_from(b, i, multiline) matches Some((s, e, _)) ==> i <= s < e <= b.len() && s
            >= 0,
    decreases b.len() - i,
{
    if 0 <= i < b.len() {
        lemma_match_at(b, i, multiline);
        if match_at(b, i, multiline) is None {
            lemma_first_match_from(b, i + 1, multiline);
        }
    }
}

/// The tokens cover the text from `pos` to the end, in order, without gaps or empty tokens.
pub proof fn lemma_lex_covers(b: Seq<u8>, pos: int, multiline: bool)
    requires
        0 <= pos <= b.len(),
        b.len() <= usize::MAX,
    ensures
        pos < b.len() ==> lex(b, pos, multiline).len() > 0,
        pos == b.len() ==> lex(b, pos, multiline).len() == 0,
        lex(b, pos, multiline).len() > 0 ==> lex(b, pos, multiline)[0].start == pos,
        lex(b, pos, multiline).len() > 0 ==> lex(b, pos, multiline).last().end == b.len(),
        forall|k: int|
            0 <= k < lex(b, pos, multiline).len() ==> #[trigger] lex(b, pos, multiline)[k].start
                < lex(b, pos, multiline)[k].end,
        forall|k: int|
            0 <= k < lex(b, pos, multiline).len() - 1 ==> #[trigger] lex(b, pos, multiline)[k].end
                == lex(b, pos, multiline)[k + 1].start,
    decreases b.len() - pos,
{
    lemma_first_match_from(b, pos, multiline);
    match first_match_from(b, pos, multiline) {
        None => {},
        Some((s, e, ty)) => {
            lemma_lex_covers(b, e, multiline);
            let rest = lex(b, e, multiline);
            let head = if pos < s {
                seq![tok(TokenType::Text, pos, s), tok(ty, s, e)]
            } else {
                seq![tok(ty, s, e)]
            };
            let all = lex(b, pos, multiline);
            assert(all == head + rest);
            assert forall|k: int| 0 <= k < all.len() implies #[trigger] all[k].start < all[k].end by {
                if k >= head.len() {
                    assert(all[k] == rest[k - head.len()]);
                }
            }
            assert forall|k: int| 0 <= k < all.len() - 1 implies #[trigger] all[k].end == all[k
                + 1].start by {
                if k >= head.len() {
                    assert(all[k] == rest[k - head.len()]);
                    assert(all[k + 1] == rest[k + 1 - head.len()]);
                }
            }
            if rest.len() > 0 {
                assert(all.last() == rest.last());
            }
        },
    }
}

/// The token recognised at byte `i` of `b`, if any (executable form of `match_at`).
fn match_at_exec(b: &[u8], i: usize, multiline: bool) -> (r: Option<(usize, TokenType)>)
    requires
        i < b@.len(),
    ensures
        match r {
            Some((e, ty)) => match_at(b@, i as int, multiline) == Some((e as int, ty)),
            None => match_at(b@, i as int, multiline) is None,
        },
{
    let len = b.len();
    let c = b[i];
    proof {
        lemma_match_at(b@, i as int, multiline);
    }
    if c == 92u8 {
        if i + 1 >= len {
            None
        } else if (b[i + 1] >= 65 && b[i + 1] <= 90) || (b[i + 1] >= 97 && b[i + 1] <= 122) {
            let mut j = i + 1;
            while j < len && ((b[j] >= 65 && b[j] <= 90) || (b[j] >= 97 && b[j] <= 122))
                invariant
                    i + 1 <= j <= len,
                    len == b@.len(),
                    letters_end(b@, j as int) == letters_end(b@, i + 1),
                decreases len - j,
            {
                j = j + 1;
            }
            Some((j, TokenType::Command))
        } else {
            let mut j = i + 2;
            proof {
                lemma_char_start_after(b@, i + 2);
            }
            while j < len && b[j] >= 0x80 && b[j] <= 0xbf
                invariant
                    i + 2 <= j <= len,
                    len == b@.len(),
                    char_start_at_or_after(b@, j as int) == char_start_at_or_after(b@, i + 2),
                decreases len - j,
            {
                j = j + 1;
            }
            Some((j, TokenType::Command))
        }
    } else if c == 37u8 {
        let mut j = i + 1;
        while j < len && b[j] != 10u8
            invariant
                i + 1 <= j <= len,
                len == b@.len(),
                newline_or_end(b@, j as int) == newline_or_end(b@, i + 1),
            decreases len - j,
        {
            j = j + 1;
        }
        if multiline || j == len {
            Some((j, TokenType::Comment))
        } else {
            None
        }
    } else if c == 36u8 {
        if i + 1 < len && b[i + 1] == 36u8 {
            Some((i + 2, TokenType::MathDoubleDollar))
        } else {
            Some((i + 1, TokenType::MathDollar))
        }
    } else if c == 123u8 {
        Some((i + 1, TokenType::OpenBrace))
    } else if c == 125u8 {
        Some((i + 1, TokenType::CloseBrace))
    } else {
        None
    }
}

/// Tokenizes `text`; `multiline` chooses whether comments end at line ends.
fn tokenize_with(text: &str, multiline: bool) -> (r: Vec<Token>)
    ensures
        r@ == lex(utf8(text@), 0, multiline),
{
    let b = text.as_bytes();
    let len = b.len();
    let ghost bs = b@;
    let mut tokens: Vec<Token> = Vec::new();
    let mut last_end: usize = 0;
    let mut i: usize = 0;
    while i < len
        invariant
            bs == b@,
            len == bs.len(),
            0 <= last_end <= i <= len,
            first_match_from(bs, last_end as int, multiline) == first_match_from(
                bs,
                i as int,
                multiline,
            ),
            tokens@ + lex(bs, last_end as int, multiline) == lex(bs, 0, multiline),
        decreases len - i,
    {
        match match_at_exec(b, i, multiline) {
            Some((e, ty)) => {
                proof {
                    lemma_match_at(bs, i as int, multiline);
                    let l = lex(bs, last_end as int, multiline);
                    if last_end < i {
                        assert(l == seq![tok(TokenType::Text, last_end as int, i as int), tok(ty, i as int, e as int)] + lex(bs, e as int, multiline));
                        assert(tokens@.push(tok(TokenType::Text, last_end as int, i as int)).push(
                            tok(ty, i as int, e as int),
                        ) + lex(bs, e as int, multiline) =~= tokens@ + l);
                    } else {
                        assert(l == seq![tok(ty, i as int, e as int)] + lex(bs, e as int, multiline));
                        assert(tokens@.push(tok(ty, i as int, e as int)) + lex(bs, e as int, multiline)
                            =~= tokens@ + l);
                    }
                }
                if i > last_end {
                    tokens.push(Token { token_type: TokenType::Text, start: last_end, end: i });
                }
                tokens.push(Token { token_type: ty, start: i, end: e });
                last_end = e;
                i = e;
            },
            None => {
                i = i + 1;
            },
        }
    }
    proof {
        let l = lex(bs, last_end as int, multiline);
        if last_end < len {
            assert(l == seq![tok(TokenType::Text, last_end as int, len as int)]);
        } else {
            assert(l == Seq::<Token>::empty());
        }
    }
    if last_end < len {
        tokens.push(Token { token_type: TokenType::Text, start: last_end, end: len });
    }
    proof {
        assert(tokens@ =~= lex(bs, 0, multiline));
    }
    tokens
}

/// Tokenizes a whole document: comments run to the end of their line.
pub fn tokenize(text: &str) -> (r: Vec<Token>)
    ensures
        r@ == lex(utf8(text@), 0, true),
{
    tokenize_with(text, true)
}

/// Tokenizes a single line: a `%` starts a comment only if no newline follows it.
pub fn tokenize_line(text: &str) -> (r: Vec<Token>)
    ensures
        r@ == lex(utf8(text@), 0, false),
{
    tokenize_with(text, false)
}

/// The tokens of any text cover it from start to end, in order, each non-empty, each starting
/// where the previous one ended.
pub proof fn law_tokens_cover_text(text: Seq<char>, multiline: bool)
    requires
        utf8(text).len() <= usize::MAX,
    ensures
        ({
            let b = utf8(text);
            let t = lex(b, 0, multiline);
            &&& (b.len() == 0 <==> t.len() == 0)
            &&& t.len() > 0 ==> t[0].start == 0 && t.last().end == b.len()
            &&& forall|k: int| 0 <= k < t.len() ==> #[trigger] t[k].start < t[k].end
            &&& forall|k: int| 0 <= k < t.len() - 1 ==> #[trigger] t[k].end == t[k + 1].start
        }),
{
    lemma_lex_covers(utf8(text), 0, multiline);
}

proof fn lemma_first_match_not_text(b: Seq<u8>, i: int, multiline: bool)
    ensures
        first_match_from(b, i, multiline) matches Some((_, _, ty)) ==> ty != TokenType::Text,
    decreases b.len() - i,
{
    if 0 <= i < b.len() && match_at(b, i, multiline) is None {
        lemma_first_match_not_text(b, i + 1, multiline);
    }
}

proof fn lemma_lex_no_adjacent_text(b: Seq<u8>, pos: int, multiline: bool)
    ensures
        forall|k: int|
            0 <= k < lex(b, pos, multiline).len() - 1 ==> !(#[trigger] lex(b, pos, multiline)[k].token_type
                == TokenType::Text && lex(b, pos, multiline)[k + 1].token_type == TokenType::Text),
    decreases b.len() - pos,
{
    if 0 <= pos <= b.len() {
        lemma_first_match_not_text(b, pos, multiline);
        lemma_first_match_from(b, pos, multiline);
        match first_match_from(b, pos, multiline) {
            None => {},
            Some((s, e, ty)) => {
                if (pos < s <= b.len() && s < e <= b.len()) || (pos == s && s < e <= b.len()) {
                    lemma_lex_no_adjacent_text(b, e, multiline);
                    let rest = lex(b, e, multiline);
                    let head = if pos < s {
                        seq![tok(TokenType::Text, pos, s), tok(ty, s, e)]
                    } else {
                        seq![tok(ty, s, e)]
                    };
                    let all = lex(b, pos, multiline);
                    assert(all == head + rest);
                    assert forall|k: int| 0 <= k < all.len() - 1 implies !(#[trigger] all[k].token_type
                        == TokenType::Text && all[k + 1].token_type == TokenType::Text) by {
                        if k >= head.len() {
                            assert(all[k] == rest[k - head.len()]);
                            assert(all[k + 1] == rest[k + 1 - head.len()]);
                        } else if k == head.len() - 1 {
                            assert(all[k] == head.last());
                        }
                    }
                }
            },
        }
    }
}

/// No two neighbouring tokens are both plain text: plain text runs up to the next recognised
/// token.
pub proof fn law_no_adjacent_text(text: Seq<char>, multiline: bool)
    ensures
        ({
            let t = lex(utf8(text), 0, multiline);
            forall|k: int|
                0 <= k < t.len() - 1 ==> !(#[trigger] t[k].token_type == TokenType::Text && t[k
                    + 1].token_type == TokenType::Text)
        }),
{
    lemma_lex_no_adjacent_text(utf8(text), 0, multiline);
}

proof fn lemma_newline_or_end_no_newline(b: Seq<u8>, i: int)
    requires
        0 <= i,
        forall|k: int| 0 <= k < b.len() ==> b[k] != 10u8,
    ensures
        newline_or_end(b, i) == b.len(),
    decreases b.len() - i,
{
    if i < b.len() {
        lemma_newline_or_end_no_newline(b, i + 1);
    }
}

proof fn lemma_first_match_modes_agree(b: Seq<u8>, i: int)
    requires
        forall|k: int| 0 <= k < b.len() ==> b[k] != 10u8,
    ensures
        first_match_from(b, i, false) == first_match_from(b, i, true),
    decreases b.len() - i,
{
    if 0 <= i < b.len() {
        lemma_newline_or_end_no_newline(b, i + 1);
        assert(match_at(b, i, false) == match_at(b, i, true));
        lemma_first_match_modes_agree(b, i + 1);
    }
}

proof fn lemma_lex_modes_agree(b: Seq<u8>, pos: int)
    requires
        forall|k: int| 0 <= k < b.len() ==> b[k] != 10u8,
    ensures
        lex(b, pos, false) == lex(b, pos, true),
    decreases b.len() - pos,
{
    if 0 <= pos <= b.len() {
        lemma_first_match_modes_agree(b, pos);
        lemma_first_match_from(b, pos, true);
        match first_match_from(b, pos, true) {
            None => {},
            Some((s, e, ty)) => {
                if s < e {
                    lemma_lex_modes_agree(b, e);
                }
            },
        }
    }
}

/// On a text without a newline character, tokenizing it as one line and as a whole document
/// agree.
pub proof fn law_line_tokens_agree(text: Seq<char>)
    requires
        !text.contains('\n'),
    ensures
        lex(utf8(text), 0, false) == lex(utf8(text), 0, true),
{
    lemma_no_newline_byte(text);
    lemma_lex_modes_agree(utf8(text), 0);
}


/// Each token is what is recognised at its start: a plain-text token starts where nothing is
/// recognised, and any other token is exactly the token recognised there.
proof fn lemma_lex_recognised(b: Seq<u8>, pos: int, multiline: bool)
    requires
        0 <= pos <= b.len(),
        b.len() <= usize::MAX,
    ensures
        forall|k: int|
            0 <= k < lex(b, pos, multiline).len() ==> {
                let t = #[trigger] lex(b, pos, multiline)[k];
                if t.token_type == TokenType::Text {
                    match_at(b, t.start as int, multiline) is None
                } else {
                    match_at(b, t.start as int, multiline) == Some((t.end as int, t.token_type))
                }
            },
    decreases b.len() - pos,
{
    lemma_first_match_from(b, pos, multiline);
    lemma_first_match_not_text(b, pos, multiline);
    let all = lex(b, pos, multiline);
    match first_match_from(b, pos, multiline) {
        None => {
            if pos < b.len() {
                assert(match_at(b, pos, multiline) is None);
            }
        },
        Some((s, e, ty)) => {
            lemma_lex_recognised(b, e, multiline);
            let rest = lex(b, e, multiline);
            lemma_match_at(b, pos, multiline);
            lemma_first_match_at(b, pos, multiline);
            let head = if pos < s {
                seq![tok(TokenType::Text, pos, s), tok(ty, s, e)]
            } else {
                seq![tok(ty, s, e)]
            };
            assert(all == head + rest);
            assert forall|k: int| 0 <= k < all.len() implies {
                let t = #[trigger] all[k];
                if t.token_type == TokenType::Text {
                    match_at(b, t.start as int, multiline) is None
                } else {
                    match_at(b, t.start as int, multiline) == Some((t.end as int, t.token_type))
                }
            } by {
                if k >= head.len() {
                    assert(all[k] == rest[k - head.len()]);
                }
            }
        },
    }
}

/// The leftmost match from `i` is the token recognised at its start, and nothing is recognised
/// between `i` and it.
proof fn lemma_first_match_at(b: Seq<u8>, i: int, multiline: bool)
    ensures
        first_match_from(b, i, multiline) matches Some((s, e, ty)) ==> match_at(b, s, multiline)
            == Some((e, ty)) && (i < s ==> match_at(b, i, multiline) is None),
    decreases b.len() - i,
{
    if 0 <= i < b.len() && match_at(b, i, multiline) is None {
        lemma_first_match_at(b, i + 1, multiline);
    }
}

proof fn lemma_letters_end_bytes(b: Seq<u8>, i: int)
    requires
        0 <= i <= b.len(),
    ensures
        forall|j: int| i <= j < letters_end(b, i) ==> (65 <= #[trigger] b[j] <= 90 || 97 <= b[j] <= 122),
        letters_end(b, i) == b.len() || !(65 <= b[letters_end(b, i)] <= 90 || 97 <= b[letters_end(b, i)] <= 122),
        i <= letters_end(b, i) <= b.len(),
    decreases b.len() - i,
{
    if i < b.len() && is_letter(b[i]) {
        lemma_letters_end_bytes(b, i + 1);
    }
}

/// Commands: a token that starts with a backslash followed by another byte is a command. When
/// an ASCII letter (upper or lower case) follows the backslash, the command is the backslash and
/// the whole run of ASCII letters after it, ending where the run ends. Otherwise it is the
/// backslash and the one character after it (its bytes up to the next character start).
pub proof fn law_command_tokens(text: Seq<char>, multiline: bool)
    requires
        utf8(text).len() <= usize::MAX,
    ensures
        ({
            let b = utf8(text);
            let t = lex(b, 0, multiline);
            forall|k: int|
                0 <= k < t.len() && b[(#[trigger] t[k]).start as int] == 92u8 && t[k].start + 1
                    < b.len() ==> {
                    let s = t[k].start as int;
                    let e = t[k].end as int;
                    &&& t[k].token_type == TokenType::Command
                    &&& (65 <= b[s + 1] <= 90 || 97 <= b[s + 1] <= 122) ==> {
                        &&& s + 2 <= e <= b.len()
                        &&& forall|j: int| s + 1 <= j < e ==> (65 <= #[trigger] b[j] <= 90 || 97 <= b[j] <= 122)
                        &&& (e == b.len() || !(65 <= b[e] <= 90 || 97 <= b[e] <= 122))
                    }
                    &&& !(65 <= b[s + 1] <= 90 || 97 <= b[s + 1] <= 122) ==> {
                        &&& s + 2 <= e <= b.len()
                        &&& forall|j: int| s + 2 <= j < e ==> (0x80 <= #[trigger] b[j] <= 0xbf)
                        &&& (e == b.len() || !(0x80 <= b[e] <= 0xbf))
                    }
                }
        }),
{
    let b = utf8(text);
    let t = lex(b, 0, multiline);
    lemma_lex_recognised(b, 0, multiline);
    lemma_lex_covers(b, 0, multiline);
    assert forall|k: int|
        0 <= k < t.len() && b[(#[trigger] t[k]).start as int] == 92u8 && t[k].start + 1
            < b.len() implies {
            let s = t[k].start as int;
            let e = t[k].end as int;
            &&& t[k].token_type == TokenType::Command
            &&& (65 <= b[s + 1] <= 90 || 97 <= b[s + 1] <= 122) ==> {
                &&& s + 2 <= e <= b.len()
                &&& forall|j: int| s + 1 <= j < e ==> (65 <= #[trigger] b[j] <= 90 || 97 <= b[j] <= 122)
                &&& (e == b.len() || !(65 <= b[e] <= 90 || 97 <= b[e] <= 122))
            }
            &&& !(65 <= b[s + 1] <= 90 || 97 <= b[s + 1] <= 122) ==> {
                &&& s + 2 <= e <= b.len()
                &&& forall|j: int| s + 2 <= j < e ==> (0x80 <= #[trigger] b[j] <= 0xbf)
                &&& (e == b.len() || !(0x80 <= b[e] <= 0xbf))
            }
        } by {
        let s = t[k].start as int;
        assert(0 <= s);
        lemma_letters_end_bytes(b, s + 1);
        lemma_char_start_after(b, s + 2);
    }
}


/// Every token lies inside the text, from `pos` on.
proof fn lemma_lex_bounds(b: Seq<u8>, pos: int, multiline: bool)
    requires
        0 <= pos <= b.len(),
        b.len() <= usize::MAX,
    ensures
        forall|k: int|
            0 <= k < lex(b, pos, multiline).len() ==> pos <= (#[trigger] lex(b, pos, multiline)[k]).start
                < lex(b, pos, multiline)[k].end <= b.len(),
    decreases b.len() - pos,
{
    lemma_first_match_from(b, pos, multiline);
    let all = lex(b, pos, multiline);
    match first_match_from(b, pos, multiline) {
        None => {},
        Some((s, e, ty)) => {
            lemma_lex_bounds(b, e, multiline);
            let rest = lex(b, e, multiline);
            let head = if pos < s {
                seq![tok(TokenType::Text, pos, s), tok(ty, s, e)]
            } else {
                seq![tok(ty, s, e)]
            };
            assert(all == head + rest);
            assert forall|k: int| 0 <= k < all.len() implies pos <= (#[trigger] all[k]).start
                < all[k].end <= b.len() by {
                if k >= head.len() {
                    assert(all[k] == rest[k - head.len()]);
                }
            }
        },
    }
}

/// Nothing is recognised from `i` up to the leftmost match (or the end when there is none).
proof fn lemma_first_match_gap(b: Seq<u8>, i: int, multiline: bool)
    requires
        0 <= i,
    ensures
        forall|j: int|
            i <= j < (match first_match_from(b, i, multiline) {
                Some((s, _, _)) => s,
                None => b.len() as int,
            }) ==> #[trigger] match_at(b, j, multiline) is None,
    decreases b.len() - i,
{
    if 0 <= i < b.len() && match_at(b, i, multiline) is None {
        lemma_first_match_gap(b, i + 1, multiline);
    }
}

/// Nothing is recognised anywhere inside a plain-text token.
proof fn lemma_lex_text_gaps(b: Seq<u8>, pos: int, multiline: bool)
    requires
        0 <= pos <= b.len(),
        b.len() <= usize::MAX,
    ensures
        forall|k: int, j: int|
            0 <= k < lex(b, pos, multiline).len() && (#[trigger] lex(b, pos, multiline)[k]).token_type
                == TokenType::Text && lex(b, pos, multiline)[k].start <= j < lex(b, pos, multiline)[k].end
                ==> #[trigger] match_at(b, j, multiline) is None,
    decreases b.len() - pos,
{
    lemma_first_match_from(b, pos, multiline);
    lemma_first_match_gap(b, pos, multiline);
    lemma_first_match_not_text(b, pos, multiline);
    let all = lex(b, pos, multiline);
    match first_match_from(b, pos, multiline) {
        None => {},
        Some((s, e, ty)) => {
            lemma_lex_text_gaps(b, e, multiline);
            let rest = lex(b, e, multiline);
            let head = if pos < s {
                seq![tok(TokenType::Text, pos, s), tok(ty, s, e)]
            } else {
                seq![tok(ty, s, e)]
            };
            assert(all == head + rest);
            assert forall|k: int, j: int|
                0 <= k < all.len() && (#[trigger] all[k]).token_type == TokenType::Text
                    && all[k].start <= j < all[k].end implies #[trigger] match_at(b, j, multiline) is None by {
                if k >= head.len() {
                    assert(all[k] == rest[k - head.len()]);
                }
            }
        },
    }
}

/// What each token is, by the byte it starts with: `$$` and `$` make math tokens of those
/// bytes, `{` and `}` brace tokens of one byte, and `%` a comment running to the end of its line
/// (when tokenizing a single line, to the end of the text when no newline follows the `%`, and
/// otherwise the `%` is plain text).
pub proof fn law_token_kinds(text: Seq<char>, multiline: bool)
    requires
        utf8(text).len() <= usize::MAX,
    ensures
        ({
            let b = utf8(text);
            let t = lex(b, 0, multiline);
            forall|k: int|
                0 <= k < t.len() ==> {
                    let s = (#[trigger] t[k]).start as int;
                    let e = t[k].end as int;
                    &&& b[s] == 36u8 && s + 1 < b.len() && b[s + 1] == 36u8 ==> t[k].token_type
                        == TokenType::MathDoubleDollar && e == s + 2
                    &&& b[s] == 36u8 && !(s + 1 < b.len() && b[s + 1] == 36u8) ==> t[k].token_type
                        == TokenType::MathDollar && e == s + 1
                    &&& b[s] == 123u8 ==> t[k].token_type == TokenType::OpenBrace && e == s + 1
                    &&& b[s] == 125u8 ==> t[k].token_type == TokenType::CloseBrace && e == s + 1
                    &&& b[s] == 37u8 && multiline ==> {
                        &&& t[k].token_type == TokenType::Comment
                        &&& forall|j: int| s < j < e ==> #[trigger] b[j] != 10u8
                        &&& (e == b.len() || b[e] == 10u8)
                    }
                    &&& b[s] == 37u8 && !multiline ==> {
                        ||| {
                            &&& t[k].token_type == TokenType::Comment
                            &&& e == b.len()
                            &&& forall|j: int| s < j < e ==> #[trigger] b[j] != 10u8
                        }
                        ||| t[k].token_type == TokenType::Text && exists|q: int| s < q < b.len() && b[q] == 10u8
                    }
                }
        }),
{
    lemma_token_kinds_bytes(utf8(text), multiline);
}

#[verifier::rlimit(50)]
#[verifier::spinoff_prover]
proof fn lemma_token_kinds_bytes(b: Seq<u8>, multiline: bool)
    requires
        b.len() <= usize::MAX,
    ensures
        ({
            let t = lex(b, 0, multiline);
            forall|k: int|
                0 <= k < t.len() ==> {
                    let s = (#[trigger] t[k]).start as int;
                    let e = t[k].end as int;
                    &&& b[s] == 36u8 && s + 1 < b.len() && b[s + 1] == 36u8 ==> t[k].token_type
                        == TokenType::MathDoubleDollar && e == s + 2
                    &&& b[s] == 36u8 && !(s + 1 < b.len() && b[s + 1] == 36u8) ==> t[k].token_type
                        == TokenType::MathDollar && e == s + 1
                    &&& b[s] == 123u8 ==> t[k].token_type == TokenType::OpenBrace && e == s + 1
                    &&& b[s] == 125u8 ==> t[k].token_type == TokenType::CloseBrace && e == s + 1
                    &&& b[s] == 37u8 && multiline ==> {
                        &&& t[k].token_type == TokenType::Comment
                        &&& forall|j: int| s < j < e ==> #[trigger] b[j] != 10u8
                        &&& (e == b.len() || b[e] == 10u8)
                    }
                    &&& b[s] == 37u8 && !multiline ==> {
                        ||| {
                            &&& t[k].token_type == TokenType::Comment
                            &&& e == b.len()
                            &&& forall|j: int| s < j < e ==> #[trigger] b[j] != 10u8
                        }
                        ||| t[k].token_type == TokenType::Text && exists|q: int| s < q < b.len() && b[q] == 10u8
                    }
                }
        }),
{
    let t = lex(b, 0, multiline);
    lemma_lex_recognised(b, 0, multiline);
    lemma_lex_bounds(b, 0, multiline);
    assert forall|k: int| 0 <= k < t.len() implies {
        let s = (#[trigger] t[k]).start as int;
        let e = t[k].end as int;
        &&& b[s] == 36u8 && s + 1 < b.len() && b[s + 1] == 36u8 ==> t[k].token_type
            == TokenType::MathDoubleDollar && e == s + 2
        &&& b[s] == 36u8 && !(s + 1 < b.len() && b[s + 1] == 36u8) ==> t[k].token_type
            == TokenType::MathDollar && e == s + 1
        &&& b[s] == 123u8 ==> t[k].token_type == TokenType::OpenBrace && e == s + 1
        &&& b[s] == 125u8 ==> t[k].token_type == TokenType::CloseBrace && e == s + 1
        &&& b[s] == 37u8 && multiline ==> {
            &&& t[k].token_type == TokenType::Comment
            &&& forall|j: int| s < j < e ==> #[trigger] b[j] != 10u8
            &&& (e == b.len() || b[e] == 10u8)
        }
        &&& b[s] == 37u8 && !multiline ==> {
            ||| {
                &&& t[k].token_type == TokenType::Comment
                &&& e == b.len()
                &&& forall|j: int| s < j < e ==> #[trigger] b[j] != 10u8
            }
            ||| t[k].token_type == TokenType::Text && exists|q: int| s < q < b.len() && b[q] == 10u8
        }
    } by {
        let s = t[k].start as int;
        let tk = t[k];
        assert(0 <= s < b.len());
        if tk.token_type == TokenType::Text {
            assert(match_at(b, s, multiline) is None);
        } else {
            assert(match_at(b, s, multiline) == Some((tk.end as int, tk.token_type)));
        }
        lemma_newline_or_end_bytes(b, s + 1);
        lemma_newline_or_end(b, s + 1);
        if b[s] == 37u8 && !multiline && newline_or_end(b, s + 1) < b.len() {
            let q = newline_or_end(b, s + 1);
            assert(s < q < b.len() && b[q] == 10u8);
        }
    }
}

/// Plain text never holds `$`, `{` or `}`, holds a backslash only as the very last byte of the
/// text, and holds a `%` only when tokenizing a single line and a newline follows it: each of
/// these starts a token of its own.
pub proof fn law_text_tokens_plain(text: Seq<char>, multiline: bool)
    requires
        utf8(text).len() <= usize::MAX,
    ensures
        ({
            let b = utf8(text);
            let t = lex(b, 0, multiline);
            forall|k: int, j: int|
                0 <= k < t.len() && (#[trigger] t[k]).token_type == TokenType::Text && t[k].start
                    <= j < t[k].end ==> {
                    &&& #[trigger] b[j] != 36u8
                    &&& b[j] != 123u8
                    &&& b[j] != 125u8
                    &&& b[j] == 92u8 ==> j + 1 == b.len()
                    &&& multiline ==> b[j] != 37u8
                    &&& !multiline && b[j] == 37u8 ==> exists|q: int| j < q < b.len() && b[q] == 10u8
                }
        }),
{
    lemma_text_tokens_bytes(utf8(text), multiline);
}

#[verifier::rlimit(50)]
#[verifier::spinoff_prover]
proof fn lemma_text_tokens_bytes(b: Seq<u8>, multiline: bool)
    requires
        b.len() <= usize::MAX,
    ensures
        ({
            let t = lex(b, 0, multiline);
            forall|k: int, j: int|
                0 <= k < t.len() && (#[trigger] t[k]).token_type == TokenType::Text && t[k].start
                    <= j < t[k].end ==> {
                    &&& #[trigger] b[j] != 36u8
                    &&& b[j] != 123u8
                    &&& b[j] != 125u8
                    &&& b[j] == 92u8 ==> j + 1 == b.len()
                    &&& multiline ==> b[j] != 37u8
                    &&& !multiline && b[j] == 37u8 ==> exists|q: int| j < q < b.len() && b[q] == 10u8
                }
        }),
{
    let t = lex(b, 0, multiline);
    lemma_lex_text_gaps(b, 0, multiline);
    lemma_lex_bounds(b, 0, multiline);
    assert forall|k: int, j: int|
        0 <= k < t.len() && (#[trigger] t[k]).token_type == TokenType::Text && t[k].start <= j
            < t[k].end implies {
        &&& #[trigger] b[j] != 36u8
        &&& b[j] != 123u8
        &&& b[j] != 125u8
        &&& b[j] == 92u8 ==> j + 1 == b.len()
        &&& multiline ==> b[j] != 37u8
        &&& !multiline && b[j] == 37u8 ==> exists|q: int| j < q < b.len() && b[q] == 10u8
    } by {
        assert(0 <= j < b.len());
        assert(match_at(b, j, multiline) is None);
        lemma_newline_or_end(b, j + 1);
        assert(b[j] != 36u8);
        assert(b[j] != 123u8);
        assert(b[j] != 125u8);
        assert(b[j] == 92u8 ==> j + 1 == b.len());
        assert(multiline ==> b[j] != 37u8);
        lemma_newline_or_end_bytes(b, j + 1);
        if !multiline && b[j] == 37u8 {
            let q = newline_or_end(b, j + 1);
            assert(j < q < b.len() && b[q] == 10u8);
        }
    }
}

proof fn lemma_newline_or_end_bytes(b: Seq<u8>, i: int)
    requires
        0 <= i,
    ensures
        forall|j: int| i <= j < newline_or_end(b, i) ==> #[trigger] b[j] != 10u8,
        newline_or_end(b, i) == b.len() || b[newline_or_end(b, i)] == 10u8,
    decreases b.len() - i,
{
    if i < b.len() && b[i] != 10u8 {
        lemma_newline_or_end_bytes(b, i + 1);
    }
}

} // verus!
