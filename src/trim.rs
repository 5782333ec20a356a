//! Removal of blank rows at the top and bottom of rendered text.
use vstd::prelude::*;

verus! {

/// A character that shows something: neither a space nor a line break.
pub open spec fn is_ink(c: char) -> bool {
    c != ' ' && c != '\n'
}

/// The index of the first ink character at or after `i`, or the length when
/// there is none.
pub open spec fn first_ink_from(s: Seq<char>, i: int) -> int
    decreases s.len() - i,
{
    if i >= s.len() {
        s.len() as int
    } else if is_ink(s[i]) {
        i
    } else {
        first_ink_from(s, i + 1)
    }
}

/// One past the index of the last ink character before `i`, or 0 when there
/// is none.
pub open spec fn last_ink_end(s: Seq<char>, i: int) -> int
    decreases i,
{
    if i <= 0 {
        0
    } else if is_ink(s[i - 1]) {
        i
    } else {
        last_ink_end(s, i - 1)
    }
}

/// The start of the row that holds index `i`: just after the nearest line
/// break before `i`, or 0.
pub open spec fn row_start(s: Seq<char>, i: int) -> int
    decreases i,
{
    if i <= 0 {
        0
    } else if s[i - 1] == '\n' {
        i
    } else {
        row_start(s, i - 1)
    }
}

/// The end of the row that holds index `i`: the nearest line break at or
/// after `i`, or the length.
pub open spec fn row_end(s: Seq<char>, i: int) -> int
    decreases s.len() - i,
{
    if i >= s.len() {
        s.len() as int
    } else if s[i] == '\n' {
        i
    } else {
        row_end(s, i + 1)
    }
}

/// The text from the start of the first row that holds ink to the end of the
/// last such row, without the line break after it; empty when no row holds ink.
pub open spec fn trimmed(s: Seq<char>) -> Seq<char> {
    let first = first_ink_from(s, 0);
    if first >= s.len() {
        Seq::empty()
    } else {
        s.subrange(row_start(s, first), row_end(s, last_ink_end(s, s.len() as int)))
    }
}

proof fn lemma_first_ink_props(s: Seq<char>, i: int)
    requires
        0 <= i <= s.len(),
    ensures
        i <= first_ink_from(s, i) <= s.len(),
        forall|k: int| i <= k < first_ink_from(s, i) ==> !is_ink(#[trigger] s[k]),
        first_ink_from(s, i) < s.len() ==> is_ink(s[first_ink_from(s, i)]),
    decreases s.len() - i,
{
    if i < s.len() && !is_ink(s[i]) {
        lemma_first_ink_props(s, i + 1);
    }
}

proof fn lemma_first_ink_is(s: Seq<char>, i: int, j: int)
    requires
        0 <= i <= j <= s.len(),
        forall|k: int| i <= k < j ==> !is_ink(#[trigger] s[k]),
        j == s.len() || is_ink(s[j]),
    ensures
        first_ink_from(s, i) == j,
    decreases j - i,
{
    if i < j {
        lemma_first_ink_is(s, i + 1, j);
    }
}

proof fn lemma_last_ink_props(s: Seq<char>, i: int)
    requires
        0 <= i <= s.len(),
    ensures
        0 <= last_ink_end(s, i) <= i,
        forall|k: int| last_ink_end(s, i) <= k < i ==> !is_ink(#[trigger] s[k]),
        last_ink_end(s, i) > 0 ==> is_ink(s[last_ink_end(s, i) - 1]),
    decreases i,
{
    if i > 0 && !is_ink(s[i - 1]) {
        lemma_last_ink_props(s, i - 1);
    }
}

proof fn lemma_last_ink_is(s: Seq<char>, i: int, j: int)
    requires
        0 <= j <= i <= s.len(),
        forall|k: int| j <= k < i ==> !is_ink(#[trigger] s[k]),
        j == 0 || is_ink(s[j - 1]),
    ensures
        last_ink_end(s, i) == j,
    decreases i - j,
{
    if j < i {
        lemma_last_ink_is(s, i - 1, j);
    }
}

proof fn lemma_row_start_props(s: Seq<char>, i: int)
    requires
        0 <= i <= s.len(),
    ensures
        0 <= row_start(s, i) <= i,
        forall|k: int| row_start(s, i) <= k < i ==> #[trigger] s[k] != '\n',
        row_start(s, i) > 0 ==> s[row_start(s, i) - 1] == '\n',
    decreases i,
{
    if i > 0 && s[i - 1] != '\n' {
        lemma_row_start_props(s, i - 1);
    }
}

proof fn lemma_row_start_is(s: Seq<char>, i: int, j: int)
    requires
        0 <= j <= i <= s.len(),
        forall|k: int| j <= k < i ==> #[trigger] s[k] != '\n',
        j == 0 || s[j - 1] == '\n',
    ensures
        row_start(s, i) == j,
    decreases i - j,
{
    if j < i {
        lemma_row_start_is(s, i - 1, j);
    }
}

proof fn lemma_row_end_props(s: Seq<char>, i: int)
    requires
        0 <= i <= s.len(),
    ensures
        i <= row_end(s, i) <= s.len(),
        forall|k: int| i <= k < row_end(s, i) ==> #[trigger] s[k] != '\n',
        row_end(s, i) < s.len() ==> s[row_end(s, i)] == '\n',
    decreases s.len() - i,
{
    if i < s.len() && s[i] != '\n' {
        lemma_row_end_props(s, i + 1);
    }
}

proof fn lemma_row_end_is(s: Seq<char>, i: int, j: int)
    requires
        0 <= i <= j <= s.len(),
        forall|k: int| i <= k < j ==> #[trigger] s[k] != '\n',
        j == s.len() || s[j] == '\n',
    ensures
        row_end(s, i) == j,
    decreases j - i,
{
    if i < j {
        lemma_row_end_is(s, i + 1, j);
    }
}

/// The text between the first and the last row that hold a character other
/// than a space, both included, without the line break after the last one.
/// Rows between them are kept as they are; text with no such row gives "".
pub fn trim_blank_lines(string: &str) -> (r: &str)
    ensures
        r@ == trimmed(string@),
{
    let ghost s = string@;
    let len = string.unicode_len();
    let mut first: usize = 0;
    while first < len && !(string.get_char(first) != ' ' && string.get_char(first) != '\n')
        invariant
            len == s.len(),
            s == string@,
            first <= len,
            first_ink_from(s, first as int) == first_ink_from(s, 0),
        decreases len - first,
    {
        first = first + 1;
    }
    if first == len {
        return string.substring_char(0, 0);
    }
    let mut last_end: usize = len;
    while !(string.get_char(last_end - 1) != ' ' && string.get_char(last_end - 1) != '\n')
        invariant
            len == s.len(),
            s == string@,
            first < last_end <= len,
            is_ink(s[first as int]),
            last_ink_end(s, last_end as int) == last_ink_end(s, len as int),
        decreases last_end,
    {
        last_end = last_end - 1;
    }
    let mut start: usize = first;
    while start > 0 && string.get_char(start - 1) != '\n'
        invariant
            len == s.len(),
            s == string@,
            start <= first < len,
            row_start(s, start as int) == row_start(s, first as int),
        decreases start,
    {
        start = start - 1;
    }
    let mut end: usize = last_end;
    while end < len && string.get_char(end) != '\n'
        invariant
            len == s.len(),
            s == string@,
            last_end <= end <= len,
            row_end(s, end as int) == row_end(s, last_end as int),
        decreases len - end,
    {
        end = end + 1;
    }
    string.substring_char(start, end)
}

/// Trimming is idempotent: trimmed text trims to itself.
pub proof fn lemma_trim_idempotent(s: Seq<char>)
    ensures
        trimmed(trimmed(s)) == trimmed(s),
{
    let first = first_ink_from(s, 0);
    lemma_first_ink_props(s, 0);
    if first < s.len() {
        let a = row_start(s, first);
        let le = last_ink_end(s, s.len() as int);
        lemma_row_start_props(s, first);
        lemma_last_ink_props(s, s.len() as int);
        assert(le > first);
        let b = row_end(s, le);
        lemma_row_end_props(s, le);
        let t = s.subrange(a, b);
        assert(trimmed(s) == t);
        assert forall|k: int| 0 <= k < first - a implies !is_ink(#[trigger] t[k]) by {
            assert(t[k] == s[a + k]);
        }
        assert(t[first - a] == s[first]);
        lemma_first_ink_is(t, 0, first - a);
        assert forall|k: int| 0 <= k < first - a implies #[trigger] t[k] != '\n' by {
            assert(t[k] == s[a + k]);
        }
        lemma_row_start_is(t, first - a, 0);
        assert forall|k: int| le - a <= k < t.len() implies !is_ink(#[trigger] t[k]) by {
            assert(t[k] == s[a + k]);
        }
        assert(t[le - a - 1] == s[le - 1]);
        lemma_last_ink_is(t, t.len() as int, le - a);
        assert forall|k: int| le - a <= k < t.len() implies #[trigger] t[k] != '\n' by {
            assert(t[k] == s[a + k]);
        }
        lemma_row_end_is(t, le - a, t.len() as int);
        assert(t.subrange(0, t.len() as int) =~= t);
    }
}

/// Text whose first row and last row both hold ink is left unchanged.
pub proof fn lemma_trim_keeps_inked_borders(s: Seq<char>)
    requires
        first_ink_from(s, 0) < row_end(s, 0),
        last_ink_end(s, s.len() as int) > row_start(s, s.len() as int),
    ensures
        trimmed(s) == s,
{
    let first = first_ink_from(s, 0);
    lemma_first_ink_props(s, 0);
    lemma_row_end_props(s, 0);
    lemma_row_start_props(s, s.len() as int);
    lemma_last_ink_props(s, s.len() as int);
    let le = last_ink_end(s, s.len() as int);
    lemma_row_start_is(s, first, 0);
    lemma_row_end_is(s, le, s.len() as int);
    assert(s.subrange(0, s.len() as int) =~= s);
}

/// Text in which every row is blank trims to nothing.
pub proof fn lemma_blank_trims_to_empty(s: Seq<char>)
    requires
        forall|i: int| 0 <= i < s.len() ==> !is_ink(#[trigger] s[i]),
    ensures
        trimmed(s) == Seq::<char>::empty(),
{
    lemma_first_ink_is(s, 0, s.len() as int);
}

} // verus!
