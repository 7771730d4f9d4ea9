//! A byte-level model of UTF-8 text: character starts, character counts,
//! line starts, and the small string operations the editor is built from.
use vstd::prelude::*;
use vstd::utf8::*;

verus! {

/// The UTF-8 encoding of a character sequence (the bytes of a `str` or `String`).
pub open spec fn utf8(s: Seq<char>) -> Seq<u8> {
    encode_utf8(s)
}

/// Byte index `i` is a character boundary of `b`, in the sense of `str::is_char_boundary`:
/// the start, the end, or a byte that is not a UTF-8 continuation byte.
pub open spec fn at_char_start(b: Seq<u8>, i: int) -> bool {
    i == 0 || i == b.len() || (0 < i < b.len() && !is_continuation_byte(b[i]))
}

/// `b` with the bytes `start..end` replaced by `ins`.
pub open spec fn splice(b: Seq<u8>, start: int, end: int, ins: Seq<u8>) -> Seq<u8> {
    b.subrange(0, start) + ins + b.subrange(end, b.len() as int)
}

/// Number of characters encoded by `b`: the bytes that start a character.
pub open spec fn char_count(b: Seq<u8>) -> nat
    decreases b.len(),
{
    if b.len() == 0 {
        0
    } else {
        char_count(b.drop_last()) + if is_continuation_byte(b.last()) {
            0nat
        } else {
            1nat
        }
    }
}

/// Scanning forward from byte `i`, the byte offset at which the `k`-th further
/// character starts, or `b.len()` when there are not that many characters.
pub open spec fn char_offset_from(b: Seq<u8>, i: int, k: nat) -> int
    decreases b.len() - i,
{
    if i < 0 || i >= b.len() {
        b.len() as int
    } else if !is_continuation_byte(b[i]) {
        if k == 0 {
            i
        } else {
            char_offset_from(b, i + 1, (k - 1) as nat)
        }
    } else {
        char_offset_from(b, i + 1, k)
    }
}

/// Byte offset of character number `k` (counting from 0) in `b`; `b.len()` if `b` has at most `k` characters.
pub open spec fn char_offset(b: Seq<u8>, k: nat) -> int {
    char_offset_from(b, 0, k)
}

/// The greatest character start at or before byte `j` (0 if there is none).
pub open spec fn char_start_at_or_before(b: Seq<u8>, j: int) -> int
    decreases j,
{
    if j <= 0 {
        0
    } else if j < b.len() && !is_continuation_byte(b[j]) {
        j
    } else {
        char_start_at_or_before(b, j - 1)
    }
}

/// The least character start at or after byte `j` (the end if there is none).
pub open spec fn char_start_at_or_after(b: Seq<u8>, j: int) -> int
    decreases b.len() - j,
{
    if j >= b.len() {
        b.len() as int
    } else if j >= 0 && !is_continuation_byte(b[j]) {
        j
    } else {
        char_start_at_or_after(b, j + 1)
    }
}

/// The starts of the lines of the first `n` bytes of `b`: 0, and every position just after a `'\n'`.
pub open spec fn line_starts_upto(b: Seq<u8>, n: int) -> Seq<usize>
    decreases n,
{
    if n <= 0 {
        seq![0usize]
    } else if b[n - 1] == 10u8 {
        line_starts_upto(b, n - 1).push(n as usize)
    } else {
        line_starts_upto(b, n - 1)
    }
}

/// The start offsets of all lines of `b`.
pub open spec fn line_starts(b: Seq<u8>) -> Seq<usize> {
    line_starts_upto(b, b.len() as int)
}

/// How many entries of `s` are at most `c`.
pub open spec fn count_le(s: Seq<usize>, c: int) -> nat
    decreases s.len(),
{
    if s.len() == 0 {
        0
    } else {
        count_le(s.drop_last(), c) + if s.last() <= c {
            1nat
        } else {
            0nat
        }
    }
}

/// `s` is strictly increasing.
pub open spec fn strictly_sorted(s: Seq<usize>) -> bool {
    forall|i: int, j: int| 0 <= i < j < s.len() ==> s[i] < s[j]
}

/// Facts about the first byte of a valid UTF-8 sequence.
pub proof fn lemma_valid_first_byte(b: Seq<u8>)
    requires
        valid_utf8(b),
        b.len() > 0,
    ensures
        !is_continuation_byte(b[0]),
        valid_first_scalar(b),
        1 <= length_of_first_scalar(b) <= 4,
        length_of_first_scalar(b) <= b.len(),
        forall|i: int| 0 < i < length_of_first_scalar(b) ==> is_continuation_byte(#[trigger] b[i]),
        length_of_first_scalar(b) > 1 ==> b[0] >= 0xc0,
        valid_utf8(pop_first_scalar(b)),
{
}

/// In valid UTF-8 a continuation byte is never first and always follows a non-ASCII byte.
pub proof fn lemma_cont_preceded(b: Seq<u8>, i: int)
    requires
        valid_utf8(b),
        0 <= i < b.len(),
        is_continuation_byte(b[i]),
    ensures
        i > 0,
        b[i - 1] >= 0x80,
    decreases b.len(),
{
    lemma_valid_first_byte(b);
    let k = length_of_first_scalar(b);
    if i >= k {
        let rest = pop_first_scalar(b);
        assert(rest[i - k] == b[i]);
        if i == k {
            lemma_valid_first_byte(rest);
        } else {
            lemma_cont_preceded(rest, i - k);
            assert(rest[i - k - 1] == b[i - 1]);
        }
    }
}

/// The byte after an ASCII byte of valid UTF-8 starts a character.
pub proof fn lemma_after_ascii(b: Seq<u8>, i: int)
    requires
        valid_utf8(b),
        0 < i <= b.len(),
        b[i - 1] < 0x80,
    ensures
        at_char_start(b, i),
{
    if i < b.len() && is_continuation_byte(b[i]) {
        lemma_cont_preceded(b, i);
    }
}

/// On valid UTF-8, `at_char_start` is vstd's `is_char_boundary`.
pub proof fn lemma_char_boundary_iff(b: Seq<u8>, i: int)
    requires
        valid_utf8(b),
        0 <= i <= b.len(),
    ensures
        is_char_boundary(b, i) == at_char_start(b, i),
{
    is_char_boundary_start_end_of_seq(b);
    if 0 < i < b.len() {
        is_char_boundary_iff_not_is_continuation_byte(b, i);
    }
}

/// Every character sequence has a valid encoding, and the encoding determines the sequence.
pub proof fn lemma_utf8_facts(s: Seq<char>)
    ensures
        valid_utf8(utf8(s)),
        decode_utf8(utf8(s)) == s,
{
    encode_utf8_valid_utf8(s);
    encode_utf8_decode_utf8(s);
}

/// Equal encodings come from equal character sequences.
pub proof fn lemma_utf8_injective(s: Seq<char>, t: Seq<char>)
    requires
        utf8(s) == utf8(t),
    ensures
        s == t,
{
    lemma_utf8_facts(s);
    lemma_utf8_facts(t);
}

/// `char_start_at_or_before` lands on a character start not after `j`.
pub proof fn lemma_char_start_before(b: Seq<u8>, j: int)
    requires
        j < b.len(),
    ensures
        0 <= char_start_at_or_before(b, j),
        j >= 0 ==> char_start_at_or_before(b, j) <= j,
        at_char_start(b, char_start_at_or_before(b, j)),
        forall|k: int|
            char_start_at_or_before(b, j) < k <= j ==> is_continuation_byte(#[trigger] b[k]),
    decreases j,
{
    if j <= 0 {
    } else if !is_continuation_byte(b[j]) {
    } else {
        lemma_char_start_before(b, j - 1);
    }
}

/// `char_start_at_or_after` lands on a character start not before `j`.
pub proof fn lemma_char_start_after(b: Seq<u8>, j: int)
    requires
        j >= 0,
    ensures
        j <= b.len() ==> j <= char_start_at_or_after(b, j),
        char_start_at_or_after(b, j) <= b.len(),
        at_char_start(b, char_start_at_or_after(b, j)),
        forall|k: int|
            j <= k < char_start_at_or_after(b, j) ==> is_continuation_byte(#[trigger] b[k]),
    decreases b.len() - j,
{
    if j >= b.len() {
    } else if !is_continuation_byte(b[j]) {
    } else {
        lemma_char_start_after(b, j + 1);
    }
}

/// `char_offset_from` lands on a character start within range.
pub proof fn lemma_char_offset_from(b: Seq<u8>, i: int, k: nat)
    requires
        0 <= i,
    ensures
        i <= b.len() ==> i <= char_offset_from(b, i, k),
        char_offset_from(b, i, k) <= b.len(),
        char_offset_from(b, i, k) == b.len() || !is_continuation_byte(b[char_offset_from(b, i, k)]),
    decreases b.len() - i,
{
    if i >= b.len() {
    } else if !is_continuation_byte(b[i]) {
        if k != 0 {
            lemma_char_offset_from(b, i + 1, (k - 1) as nat);
        }
    } else {
        lemma_char_offset_from(b, i + 1, k);
    }
}

/// Shape of the line-start table.
pub proof fn lemma_line_starts_upto(b: Seq<u8>, n: int)
    requires
        0 <= n <= b.len(),
        b.len() <= usize::MAX,
    ensures
        line_starts_upto(b, n).len() >= 1,
        line_starts_upto(b, n)[0] == 0,
        strictly_sorted(line_starts_upto(b, n)),
        forall|i: int| 0 <= i < line_starts_upto(b, n).len() ==> #[trigger] line_starts_upto(b, n)[i] <= n,
        forall|i: int|
            0 < i < line_starts_upto(b, n).len() ==> #[trigger] line_starts_upto(b, n)[i] >= 1
                && b[line_starts_upto(b, n)[i] - 1] == 10u8,
        line_starts_upto(b, n).len() <= n + 1,
    decreases n,
{
    if n > 0 {
        lemma_line_starts_upto(b, n - 1);
    }
}

/// Shape of the line-start table of valid UTF-8: every line starts at a character start.
pub proof fn lemma_line_starts(b: Seq<u8>)
    requires
        valid_utf8(b),
        b.len() <= usize::MAX,
    ensures
        line_starts(b).len() >= 1,
        line_starts(b)[0] == 0,
        strictly_sorted(line_starts(b)),
        forall|i: int| 0 <= i < line_starts(b).len() ==> #[trigger] line_starts(b)[i] <= b.len(),
        forall|i: int|
            0 <= i < line_starts(b).len() ==> at_char_start(b, #[trigger] line_starts(b)[i] as int),
        line_starts(b).len() <= b.len() + 1,
{
    lemma_line_starts_upto(b, b.len() as int);
    let s = line_starts(b);
    assert forall|i: int| 0 <= i < s.len() implies at_char_start(b, #[trigger] s[i] as int) by {
        if i > 0 {
            lemma_after_ascii(b, s[i] as int);
        }
    }
}

/// For a strictly increasing table, `count_le` is the index of the first entry above `c`.
pub proof fn lemma_count_le(s: Seq<usize>, c: int, idx: int)
    requires
        strictly_sorted(s),
        0 <= idx <= s.len(),
        forall|j: int| 0 <= j < idx ==> s[j] <= c,
        forall|j: int| idx <= j < s.len() ==> s[j] > c,
    ensures
        count_le(s, c) == idx,
    decreases s.len(),
{
    if s.len() > 0 {
        let t = s.drop_last();
        if idx == s.len() {
            lemma_count_le(t, c, idx - 1);
        } else {
            lemma_count_le(t, c, idx);
        }
    }
}

/// The bytes of a subrange of a `str`, as a `str`.
pub fn substr(s: &str, start: usize, end: usize) -> (r: &str)
    requires
        start <= end <= utf8(s@).len(),
        at_char_start(utf8(s@), start as int),
        at_char_start(utf8(s@), end as int),
    ensures
        utf8(r@) == utf8(s@).subrange(start as int, end as int),
{
    let ghost b = utf8(s@);
    proof {
        lemma_utf8_facts(s@);
        lemma_char_boundary_iff(b, start as int);
        lemma_char_boundary_iff(b, end as int);
    }
    let (_, tail) = s.split_at(start);
    let ghost tb = utf8(tail@);
    assert(tb == b.subrange(start as int, b.len() as int));
    proof {
        lemma_utf8_facts(tail@);
        lemma_char_boundary_iff(tb, (end - start) as int);
        assert(end - start == tb.len() || tb[end - start] == b[end as int]);
    }
    let (mid, _) = tail.split_at(end - start);
    assert(utf8(mid@) =~= b.subrange(start as int, end as int));
    mid
}

/// Whether two byte slices hold the same bytes.
pub fn bytes_eq(a: &[u8], b: &[u8]) -> (r: bool)
    ensures
        r == (a@ == b@),
{
    if a.len() != b.len() {
        return false;
    }
    let mut i: usize = 0;
    while i < a.len()
        invariant
            a@.len() == b@.len(),
            0 <= i <= a@.len(),
            forall|j: int| 0 <= j < i ==> a@[j] == b@[j],
        decreases a@.len() - i,
    {
        if a[i] != b[i] {
            return false;
        }
        i = i + 1;
    }
    assert(a@ =~= b@);
    true
}

/// A byte sequence encodes at most one character per byte.
pub proof fn lemma_char_count_le(b: Seq<u8>)
    ensures
        char_count(b) <= b.len(),
    decreases b.len(),
{
    if b.len() > 0 {
        lemma_char_count_le(b.drop_last());
    }
}

/// Number of characters in the bytes `start..end` of `b`.
pub fn count_chars(b: &[u8], start: usize, end: usize) -> (r: usize)
    requires
        start <= end <= b@.len(),
    ensures
        r == char_count(b@.subrange(start as int, end as int)),
{
    let mut i = start;
    let mut n: usize = 0;
    while i < end
        invariant
            start <= i <= end <= b@.len(),
            n == char_count(b@.subrange(start as int, i as int)),
            n <= i - start,
        decreases end - i,
    {
        proof {
            assert(b@.subrange(start as int, i + 1).drop_last() =~= b@.subrange(
                start as int,
                i as int,
            ));
        }
        if !(b[i] >= 0x80 && b[i] <= 0xbf) {
            n = n + 1;
        }
        i = i + 1;
    }
    n
}

/// Byte offset, relative to `start`, of character number `k` within the bytes `start..end` of `b`
/// (`end - start` when there are not that many characters).
pub fn nth_char_offset(b: &[u8], start: usize, end: usize, k: usize) -> (r: usize)
    requires
        start <= end <= b@.len(),
    ensures
        r == char_offset(b@.subrange(start as int, end as int), k as nat),
{
    let ghost x = b@.subrange(start as int, end as int);
    let mut i = start;
    let mut kk = k;
    while i < end
        invariant
            start <= i <= end <= b@.len(),
            x == b@.subrange(start as int, end as int),
            char_offset_from(x, i - start, kk as nat) == char_offset(x, k as nat),
        decreases end - i,
    {
        assert(x[i - start] == b@[i as int]);
        if !(b[i] >= 0x80 && b[i] <= 0xbf) {
            if kk == 0 {
                return i - start;
            }
            kk = kk - 1;
        }
        i = i + 1;
    }
    end - start
}

/// The encoding of a concatenation is the concatenation of the encodings.
pub proof fn lemma_utf8_concat(a: Seq<char>, b: Seq<char>)
    ensures
        utf8(a + b) == utf8(a) + utf8(b),
    decreases a.len(),
{
    if a.len() == 0 {
        assert(a + b =~= b);
        assert(utf8(a) + utf8(b) =~= utf8(b));
    } else {
        assert((a + b).drop_first() =~= a.drop_first() + b);
        assert((a + b)[0] == a[0]);
        lemma_utf8_concat(a.drop_first(), b);
        assert(utf8(a + b) =~= utf8(a) + utf8(b));
    }
}

/// The encoding of a character range is the matching byte range of the encoding.
pub proof fn lemma_utf8_subrange(s: Seq<char>, i: int, j: int)
    requires
        0 <= i <= j <= s.len(),
    ensures
        utf8(s) == utf8(s.subrange(0, i)) + utf8(s.subrange(i, j)) + utf8(
            s.subrange(j, s.len() as int),
        ),
        utf8(s.subrange(i, j)).len() <= utf8(s).len(),
{
    lemma_utf8_concat(s.subrange(0, i), s.subrange(i, j));
    lemma_utf8_concat(s.subrange(0, i) + s.subrange(i, j), s.subrange(j, s.len() as int));
    assert(s.subrange(0, i) + s.subrange(i, j) + s.subrange(j, s.len() as int) =~= s);
}

/// Scanning back from `j` over continuation bytes stops at the character start `c`.
pub proof fn lemma_back_to_start(b: Seq<u8>, c: int, j: int)
    requires
        0 <= c <= j < b.len(),
        c == 0 || !is_continuation_byte(b[c]),
        forall|k: int| c < k <= j ==> is_continuation_byte(#[trigger] b[k]),
    ensures
        char_start_at_or_before(b, j) == c,
    decreases j,
{
    if j > c {
        lemma_back_to_start(b, c, j - 1);
    }
}

/// How many newlines the first `pos` bytes of `b` hold.
pub open spec fn newlines_before(b: Seq<u8>, pos: int) -> nat
    decreases pos,
{
    if pos <= 0 || pos > b.len() {
        0
    } else {
        newlines_before(b, pos - 1) + if b[pos - 1] == 10u8 {
            1nat
        } else {
            0nat
        }
    }
}

/// The text has one more line than it has newlines.
pub proof fn law_line_count(b: Seq<u8>)
    ensures
        line_starts(b).len() == 1 + newlines_before(b, b.len() as int),
{
    lemma_line_count_upto(b, b.len() as int);
}

proof fn lemma_line_count_upto(b: Seq<u8>, n: int)
    requires
        0 <= n <= b.len(),
    ensures
        line_starts_upto(b, n).len() == 1 + newlines_before(b, n),
    decreases n,
{
    if n > 0 {
        lemma_line_count_upto(b, n - 1);
    }
}

/// Later characters start no earlier.
pub proof fn lemma_char_offset_monotone(b: Seq<u8>, i: int, k1: nat, k2: nat)
    requires
        0 <= i,
        k1 <= k2,
    ensures
        char_offset_from(b, i, k1) <= char_offset_from(b, i, k2),
    decreases b.len() - i,
{
    if i < b.len() {
        if !is_continuation_byte(b[i]) {
            if k1 == 0 {
                lemma_char_offset_from(b, i, k2);
            } else {
                lemma_char_offset_monotone(b, i + 1, (k1 - 1) as nat, (k2 - 1) as nat);
            }
        } else {
            lemma_char_offset_monotone(b, i + 1, k1, k2);
        }
    }
}

/// After replacing a range that ends on a character start, the end of the inserted bytes is a
/// character start.
pub proof fn lemma_splice_end_start(b: Seq<u8>, st: int, en: int, ins: Seq<u8>)
    requires
        valid_utf8(b),
        0 <= st <= en <= b.len(),
        at_char_start(b, en),
    ensures
        at_char_start(splice(b, st, en, ins), st + ins.len()),
{
    let r = splice(b, st, en, ins);
    if b.len() > 0 {
        lemma_valid_first_byte(b);
    }
    if st + ins.len() < r.len() {
        assert(r[st + ins.len()] == b[en]);
    }
}

/// The line starts of the first `n` bytes: 0, then one past each newline in order (the `k`-th
/// entry one past newline number `k`), each line before the last ending in its only newline and
/// the last line holding none.
#[verifier::rlimit(40)]
pub proof fn lemma_line_breaks_upto(b: Seq<u8>, n: int)
    requires
        0 <= n <= b.len(),
        b.len() <= usize::MAX,
    ensures
        ({
            let s = line_starts_upto(b, n);
            &&& s.len() >= 1
            &&& s[0] == 0
            &&& forall|k: int| 0 <= k < s.len() ==> #[trigger] s[k] <= n
            &&& forall|k: int|
                1 <= k < s.len() ==> s[k - 1] < #[trigger] s[k] && b[s[k] - 1] == 10u8
                    && newlines_before(b, s[k] - 1) == k - 1
            &&& forall|k: int, j: int|
                1 <= k < s.len() && s[k - 1] <= j < #[trigger] s[k] - 1 ==> #[trigger] b[j] != 10u8
            &&& forall|j: int| s.last() <= j < n ==> #[trigger] b[j] != 10u8
        }),
    decreases n,
{
    if n > 0 {
        lemma_line_breaks_upto(b, n - 1);
        lemma_line_count_upto(b, n - 1);
        let s0 = line_starts_upto(b, n - 1);
        let s = line_starts_upto(b, n);
        if b[n - 1] == 10u8 {
            assert(s == s0.push(n as usize));
            assert forall|k: int| 1 <= k < s.len() implies s[k - 1] < #[trigger] s[k] && b[s[k] - 1]
                == 10u8 && newlines_before(b, s[k] - 1) == k - 1 by {
                if k == s.len() - 1 {
                    assert(s[k - 1] == s0[s0.len() - 1]);
                    assert(s0[s0.len() - 1] <= n - 1);
                    assert(s[k] == n);
                    assert(s0.len() == 1 + newlines_before(b, n - 1));
                } else {
                    assert(s[k] == s0[k]);
                    assert(s[k - 1] == s0[k - 1]);
                }
            }
            assert forall|k: int, j: int|
                1 <= k < s.len() && s[k - 1] <= j < #[trigger] s[k] - 1 implies #[trigger] b[j]
                != 10u8 by {
                if k == s.len() - 1 {
                    assert(s[k - 1] == s0.last());
                } else {
                    assert(s[k] == s0[k]);
                    assert(s[k - 1] == s0[k - 1]);
                }
            }
        }
    }
}

proof fn lemma_scalar_no_newline(v: u32)
    requires
        v != 10,
    ensures
        forall|i: int| 0 <= i < encode_scalar(v).len() ==> encode_scalar(v)[i] != 10u8,
{
    if has_width_1_encoding(v) {
        assert((v & 0x7F) as u8 != 10u8) by (bit_vector)
            requires
                v <= 0x7F,
                v != 10,
        ;
    } else {
        assert((0xC0 | ((v >> 6) & 0x1F) as u8) != 10u8) by (bit_vector);
        assert((0xE0 | ((v >> 12) & 0x0F) as u8) != 10u8) by (bit_vector);
        assert((0xF0 | ((v >> 18) & 0x7) as u8) != 10u8) by (bit_vector);
        assert((0x80 | (v & 0x3F) as u8) != 10u8) by (bit_vector);
        assert((0x80 | ((v >> 6) & 0x3F) as u8) != 10u8) by (bit_vector);
        assert((0x80 | ((v >> 12) & 0x3F) as u8) != 10u8) by (bit_vector);
    }
}

/// A text without a newline character has no newline byte in its encoding.
pub proof fn lemma_no_newline_byte(s: Seq<char>)
    requires
        !s.contains('\n'),
    ensures
        forall|k: int| 0 <= k < utf8(s).len() ==> utf8(s)[k] != 10u8,
    decreases s.len(),
{
    if s.len() > 0 {
        assert(s[0] != '\n');
        assert(!s.drop_first().contains('\n')) by {
            if s.drop_first().contains('\n') {
                let i = choose|i: int| 0 <= i < s.drop_first().len() && s.drop_first()[i] == '\n';
                assert(s[i + 1] == '\n');
            }
        }
        lemma_no_newline_byte(s.drop_first());
        assert(s[0] as u32 != 10u32) by {
            vstd::utf8::char_u32_cast(s[0], s[0] as u32);
            if s[0] as u32 == 10u32 {
                assert((10u32 as char) == '\n');
            }
        }
        lemma_scalar_no_newline(s[0] as u32);
        let e = encode_scalar(s[0] as u32);
        let r = utf8(s.drop_first());
        assert(utf8(s) == e + r);
        assert forall|k: int| 0 <= k < utf8(s).len() implies utf8(s)[k] != 10u8 by {
            if k < e.len() {
                assert(utf8(s)[k] == e[k]);
            } else {
                assert(utf8(s)[k] == r[k - e.len()]);
            }
        }
    }
}

} // verus!
