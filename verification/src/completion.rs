//! Command completion in the editor: when to offer it, and the list the user moves through.
use vstd::prelude::*;

use crate::strings::chars_of;

verus! {

/// Whether `char::is_alphanumeric` holds of `c` (Unicode `Alphabetic` or a numeric category).
pub uninterp spec fn alphanumeric_spec(c: char) -> bool;

/// Trusted: `char::is_alphanumeric`, which std documents as `is_alphabetic() || is_numeric()`;
/// among ASCII characters these are exactly the letters and the digits.
#[verifier::external_body]
fn is_alphanumeric(c: char) -> (r: bool)
    ensures
        r == alphanumeric_spec(c),
        (c as u32) < 128 ==> (r <==> ('a' <= c <= 'z' || 'A' <= c <= 'Z' || '0' <= c <= '9')),
{
    c.is_alphanumeric()
}

/// The position of the last backslash among the first `m` characters of `s`.
pub open spec fn last_backslash(s: Seq<char>, m: int) -> Option<int>
    decreases m,
{
    if m <= 0 {
        None
    } else if s[m - 1] == '\\' {
        Some(m - 1)
    } else {
        last_backslash(s, m - 1)
    }
}

/// The command being typed before character position `cursor` of `text`, as a character range:
/// from the last backslash before the cursor to the cursor, when at least one character follows
/// that backslash and all that follow it are alphanumeric.
pub open spec fn trigger_spec(text: Seq<char>, cursor: int) -> Option<(int, int)> {
    let m = if cursor < text.len() {
        cursor
    } else {
        text.len() as int
    };
    match last_backslash(text, m) {
        None => None,
        Some(k) => if m - k > 1 && forall|i: int| k < i < m ==> alphanumeric_spec(#[trigger] text[i]) {
            Some((k, m))
        } else {
            None
        },
    }
}

/// The character range of the command typed before the cursor (a character position), if
/// completion should be offered (see `trigger_spec`).
pub fn completion_trigger(text: &str, cursor: usize) -> (r: Option<(usize, usize)>)
    ensures
        match r {
            Some((a, b)) => trigger_spec(text@, cursor as int) == Some((a as int, b as int)),
            None => trigger_spec(text@, cursor as int) is None,
        },
{
    let s = chars_of(text);
    let m = if cursor < s.len() {
        cursor
    } else {
        s.len()
    };
    let mut j = m;
    while j > 0 && s[j - 1] != '\\'
        invariant
            0 <= j <= m <= s@.len(),
            last_backslash(s@, j as int) == last_backslash(s@, m as int),
        decreases j,
    {
        j = j - 1;
    }
    if j == 0 {
        return None;
    }
    let k = j - 1;
    assert(last_backslash(s@, m as int) == Some(k as int));
    if m - k <= 1 {
        return None;
    }
    let mut i = k + 1;
    while i < m
        invariant
            k < i <= m <= s@.len(),
            s@ == text@,
            m == (if cursor < s@.len() { cursor as int } else { s@.len() as int }),
            last_backslash(s@, m as int) == Some(k as int),
            m - k > 1,
            forall|q: int| k < q < i ==> alphanumeric_spec(#[trigger] s@[q]),
        decreases m - i,
    {
        if !is_alphanumeric(s[i]) {
            assert(!alphanumeric_spec(s@[i as int]));
            return None;
        }
        i = i + 1;
    }
    Some((k, m))
}

proof fn lemma_last_backslash_at(s: Seq<char>, k: int, m: int)
    requires
        0 <= k < m <= s.len(),
        s[k] == '\\',
        forall|i: int| k < i < m ==> #[trigger] s[i] != '\\',
    ensures
        last_backslash(s, m) == Some(k),
    decreases m,
{
    if m - 1 > k {
        lemma_last_backslash_at(s, k, m - 1);
    }
}

proof fn lemma_last_backslash_is(s: Seq<char>, m: int)
    requires
        0 <= m <= s.len(),
    ensures
        last_backslash(s, m) matches Some(k) ==> 0 <= k < m && s[k] == '\\' && forall|i: int|
            k < i < m ==> #[trigger] s[i] != '\\',
    decreases m,
{
    if m > 0 && s[m - 1] != '\\' {
        lemma_last_backslash_is(s, m - 1);
    }
}

/// Completion is offered for the text from a backslash to the cursor when at least one character
/// follows the backslash and all of them are alphanumeric (none a backslash).
pub proof fn law_trigger_after_backslash(text: Seq<char>, k: int, cursor: int)
    requires
        0 <= k,
        k + 1 < cursor <= text.len(),
        text[k] == '\\',
        forall|i: int| k < i < cursor ==> alphanumeric_spec(#[trigger] text[i]) && text[i] != '\\',
    ensures
        trigger_spec(text, cursor) == Some((k, cursor)),
{
    lemma_last_backslash_at(text, k, cursor);
}

/// When completion is offered, its range starts at a backslash and ends at the cursor (or the
/// end of the text), at least one character follows the backslash, and every character after
/// it is alphanumeric and not a backslash.
pub proof fn law_trigger_range(text: Seq<char>, cursor: int)
    ensures
        trigger_spec(text, cursor) matches Some((a, b)) ==> {
            &&& b == (if cursor < text.len() { cursor } else { text.len() as int })
            &&& 0 <= a && a + 1 < b
            &&& text[a] == '\\'
            &&& forall|i: int| a < i < b ==> alphanumeric_spec(#[trigger] text[i]) && text[i] != '\\'
        },
{
    let m = if cursor < text.len() { cursor } else { text.len() as int };
    if m >= 0 {
        lemma_last_backslash_is(text, m);
    }
}

/// The completion list shown under the cursor.
pub struct CompletionMenu {
    visible: bool,
    matches: Vec<String>,
    range: Option<(usize, usize)>,
    selected: usize,
    prefix: String,
    block_trigger: bool,
}

/// The views of a list of strings.
pub open spec fn str_views(v: Seq<String>) -> Seq<Seq<char>> {
    Seq::new(v.len(), |i: int| v[i]@)
}

impl CompletionMenu {
    /// Whether the list is shown.
    pub closed spec fn visible_view(&self) -> bool {
        self.visible
    }

    /// The commands offered.
    pub closed spec fn matches_view(&self) -> Seq<Seq<char>> {
        str_views(self.matches@)
    }

    /// The character range the chosen command replaces.
    pub closed spec fn range_view(&self) -> Option<(usize, usize)> {
        self.range
    }

    /// The highlighted entry.
    pub closed spec fn selected_view(&self) -> nat {
        self.selected as nat
    }

    /// The command text the list was made for.
    pub closed spec fn prefix_view(&self) -> Seq<char> {
        self.prefix@
    }

    /// Whether offering waits for the next edit (set after a completion was taken).
    pub closed spec fn blocked_view(&self) -> bool {
        self.block_trigger
    }

    /// The highlighted entry is in the list, and a shown list is not empty.
    pub closed spec fn wf(&self) -> bool {
        &&& (self.matches@.len() > 0 ==> self.selected < self.matches@.len())
        &&& (self.visible ==> self.matches@.len() > 0)
    }

    /// A hidden, empty list.
    pub fn new() -> (r: Self)
        ensures
            r.wf(),
            !r.visible_view(),
            r.matches_view().len() == 0,
            r.range_view() is None,
            r.selected_view() == 0,
            r.prefix_view().len() == 0,
            !r.blocked_view(),
    {
        proof {
            reveal_strlit("");
        }
        CompletionMenu {
            visible: false,
            matches: Vec::new(),
            range: None,
            selected: 0,
            prefix: String::from_str(""),
            block_trigger: false,
        }
    }

    /// Whether the list is shown.
    pub fn is_visible(&self) -> (r: bool)
        ensures
            r == self.visible_view(),
    {
        self.visible
    }

    /// The highlighted entry.
    pub fn selected(&self) -> (r: usize)
        ensures
            r == self.selected_view(),
    {
        self.selected
    }

    /// The character range the chosen command replaces.
    pub fn range(&self) -> (r: Option<(usize, usize)>)
        ensures
            r == self.range_view(),
    {
        self.range
    }

    /// The commands offered.
    pub fn matches(&self) -> (r: &Vec<String>)
        ensures
            str_views(r@) == self.matches_view(),
    {
        &self.matches
    }

    /// Whether a new list may be offered now: the editor has focus, the cursor is not at the start,
    /// and the list is not waiting for an edit after a completion was taken (an edit lifts that
    /// wait).
    pub fn may_offer(&mut self, focused: bool, cursor: usize, changed: bool) -> (r: bool)
        ensures
            r == (focused && cursor > 0 && (!old(self).blocked_view() || changed)),
            r ==> !final(self).blocked_view(),
            !r ==> final(self).blocked_view() == old(self).blocked_view(),
            final(self).visible_view() == old(self).visible_view(),
            final(self).matches_view() == old(self).matches_view(),
            final(self).range_view() == old(self).range_view(),
            final(self).selected_view() == old(self).selected_view(),
            final(self).prefix_view() == old(self).prefix_view(),
            final(self).wf() == old(self).wf(),
    {
        let r = focused && cursor > 0 && (!self.block_trigger || changed);
        if r {
            self.block_trigger = false;
        }
        r
    }

    /// Hides the list (done on every frame before it is offered again).
    pub fn conceal(&mut self)
        requires
            old(self).wf(),
        ensures
            final(self).wf(),
            !final(self).visible_view(),
            final(self).matches_view() == old(self).matches_view(),
            final(self).range_view() == old(self).range_view(),
            final(self).selected_view() == old(self).selected_view(),
            final(self).prefix_view() == old(self).prefix_view(),
            final(self).blocked_view() == old(self).blocked_view(),
    {
        self.visible = false;
    }

    /// Offers `matches` for the command `prefix` typed over character range `range`. Nothing
    /// happens when there are no matches. The highlight goes back to the first entry when the
    /// typed command changed, else stays (moved onto the last entry if the list got shorter).
    pub fn offer(&mut self, prefix: String, matches: Vec<String>, range: (usize, usize))
        requires
            old(self).wf(),
        ensures
            final(self).wf(),
            matches@.len() == 0 ==> *final(self) == *old(self),
            matches@.len() > 0 ==> {
                &&& final(self).visible_view()
                &&& final(self).matches_view() == str_views(matches@)
                &&& final(self).range_view() == Some(range)
                &&& final(self).prefix_view() == prefix@
                &&& final(self).selected_view() == if prefix@ != old(self).prefix_view() {
                    0
                } else if old(self).selected_view() < matches@.len() {
                    old(self).selected_view()
                } else {
                    (matches@.len() - 1) as nat
                }
                &&& final(self).blocked_view() == old(self).blocked_view()
            },
    {
        if matches.len() == 0 {
            return;
        }
        let a = chars_of(prefix.as_str());
        let b = chars_of(self.prefix.as_str());
        let same = a.len() == b.len() && crate::strings::occurs_at_exec(a.as_slice(), b.as_slice(), 0);
        proof {
            if a@.len() == b@.len() {
                assert(a@.subrange(0, b@.len() as int) =~= a@);
            }
        }
        let n = matches.len();
        self.visible = true;
        self.matches = matches;
        self.range = Some(range);
        self.prefix = prefix;
        if !same {
            self.selected = 0;
        } else if self.selected >= n {
            self.selected = n - 1;
        }
    }

    /// Closes the list with Escape: hidden, and the next list starts at its first entry.
    pub fn escape(&mut self)
        requires
            old(self).wf(),
        ensures
            final(self).wf(),
            !final(self).visible_view(),
            final(self).prefix_view().len() == 0,
            final(self).matches_view() == old(self).matches_view(),
            final(self).selected_view() == old(self).selected_view(),
            final(self).range_view() == old(self).range_view(),
            final(self).blocked_view() == old(self).blocked_view(),
    {
        self.visible = false;
        self.prefix = String::from_str("");
        proof {
            reveal_strlit("");
        }
    }

    /// Moves the highlight up, from the first entry round to the last.
    pub fn up(&mut self)
        requires
            old(self).wf(),
            old(self).matches_view().len() > 0,
        ensures
            final(self).wf(),
            final(self).selected_view() == if old(self).selected_view() == 0 {
                (old(self).matches_view().len() - 1) as nat
            } else {
                (old(self).selected_view() - 1) as nat
            },
            final(self).visible_view() == old(self).visible_view(),
            final(self).matches_view() == old(self).matches_view(),
            final(self).range_view() == old(self).range_view(),
            final(self).prefix_view() == old(self).prefix_view(),
            final(self).blocked_view() == old(self).blocked_view(),
    {
        if self.selected == 0 {
            self.selected = self.matches.len() - 1;
        } else {
            self.selected = self.selected - 1;
        }
    }

    /// Moves the highlight down, from the last entry round to the first.
    pub fn down(&mut self)
        requires
            old(self).wf(),
            old(self).matches_view().len() > 0,
        ensures
            final(self).wf(),
            final(self).selected_view() == (old(self).selected_view() + 1) % old(
                self,
            ).matches_view().len(),
            final(self).visible_view() == old(self).visible_view(),
            final(self).matches_view() == old(self).matches_view(),
            final(self).range_view() == old(self).range_view(),
            final(self).prefix_view() == old(self).prefix_view(),
            final(self).blocked_view() == old(self).blocked_view(),
    {
        let n = self.matches.len();
        assert(str_views(self.matches@).len() == n);
        self.selected = (self.selected + 1) % n;
    }

    /// The list closes after a command was chosen (or the list was dismissed by a click): hidden,
    /// its command forgotten, and no new list until the next edit. Returns the chosen command and
    /// the character range it replaces, when `chosen` is an entry and a range is known.
    pub fn close(&mut self, chosen: Option<usize>) -> (r: Option<(String, (usize, usize))>)
        requires
            old(self).wf(),
        ensures
            final(self).wf(),
            !final(self).visible_view(),
            final(self).prefix_view().len() == 0,
            final(self).blocked_view(),
            final(self).matches_view() == old(self).matches_view(),
            final(self).selected_view() == old(self).selected_view(),
            final(self).range_view() == old(self).range_view(),
            match r {
                Some((c, rg)) => chosen matches Some(i) && i < old(self).matches_view().len()
                    && c@ == old(self).matches_view()[i as int] && old(self).range_view()
                    == Some(rg),
                None => chosen is None || chosen->0 >= old(self).matches_view().len()
                    || old(self).range_view() is None,
            },
    {
        let r = match chosen {
            Some(i) => if i < self.matches.len() {
                match self.range {
                    Some(rg) => Some((self.matches[i].clone(), rg)),
                    None => None,
                }
            } else {
                None
            },
            None => None,
        };
        self.visible = false;
        self.prefix = String::from_str("");
        self.block_trigger = true;
        proof {
            reveal_strlit("");
        }
        r
    }
}

} // verus!
