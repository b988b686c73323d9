//! Byte pattern search in linear time (Knuth, Morris and Pratt).

use vstd::prelude::*;

verus! {

/// The pattern stands in `hay` at position `i`.
pub open spec fn occurs_at(hay: Seq<u8>, pattern: Seq<u8>, i: int) -> bool {
    0 <= i && i + pattern.len() <= hay.len() && hay.subrange(i, i + pattern.len()) == pattern
}

/// The first position from `from` on at which the pattern stands.
pub open spec fn first_occurrence(hay: Seq<u8>, pattern: Seq<u8>, from: int) -> Option<int>
    decreases hay.len() - from + 1,
{
    if from + pattern.len() > hay.len() {
        None
    } else if occurs_at(hay, pattern, from) {
        Some(from)
    } else {
        first_occurrence(hay, pattern, from + 1)
    }
}

/// What `first_occurrence` means: the pattern stands there, and nowhere before.
pub proof fn law_first_occurrence(hay: Seq<u8>, pattern: Seq<u8>, from: int)
    requires
        0 <= from,
    ensures
        match first_occurrence(hay, pattern, from) {
            Some(p) => {
                &&& from <= p
                &&& occurs_at(hay, pattern, p)
                &&& forall|q: int| from <= q < p ==> !#[trigger] occurs_at(hay, pattern, q)
            },
            None => forall|q: int| from <= q ==> !#[trigger] occurs_at(hay, pattern, q),
        },
    decreases hay.len() - from + 1,
{
    if from + pattern.len() <= hay.len() && !occurs_at(hay, pattern, from) {
        law_first_occurrence(hay, pattern, from + 1);
    }
}

/// The position at which the pattern stands for the first time is the first occurrence.
pub(crate) proof fn lemma_found(hay: Seq<u8>, pattern: Seq<u8>, from: int, p: int)
    requires
        0 <= from <= p,
        occurs_at(hay, pattern, p),
        forall|q: int| from <= q < p ==> !#[trigger] occurs_at(hay, pattern, q),
    ensures
        first_occurrence(hay, pattern, from) == Some(p),
    decreases p - from,
{
    if from < p {
        assert(!occurs_at(hay, pattern, from));
        lemma_found(hay, pattern, from + 1, p);
    }
}

/// Where the pattern stands nowhere, there is no first occurrence.
pub(crate) proof fn lemma_not_found(hay: Seq<u8>, pattern: Seq<u8>, from: int)
    requires
        0 <= from,
        forall|q: int| from <= q ==> !#[trigger] occurs_at(hay, pattern, q),
    ensures
        first_occurrence(hay, pattern, from) == None::<int>,
    decreases hay.len() - from + 1,
{
    if from + pattern.len() <= hay.len() {
        assert(!occurs_at(hay, pattern, from));
        lemma_not_found(hay, pattern, from + 1);
    }
}

/// Searching a tail of the text is searching the text from there on.
pub(crate) proof fn lemma_shifted(hay: Seq<u8>, pattern: Seq<u8>, from: int, k: int)
    requires
        0 <= from <= hay.len(),
        0 <= k,
    ensures
        first_occurrence(hay, pattern, from + k) == match first_occurrence(
            hay.skip(from),
            pattern,
            k,
        ) {
            Some(p) => Some(from + p),
            None => None,
        },
    decreases hay.len() - from - k + 1,
{
    let tail = hay.skip(from);
    if k + pattern.len() <= tail.len() {
        assert(tail.subrange(k, k + pattern.len()) =~= hay.subrange(
            from + k,
            from + k + pattern.len(),
        ));
        if !occurs_at(tail, pattern, k) {
            lemma_shifted(hay, pattern, from, k + 1);
        }
    }
}

/// The first `k` bytes of the pattern end the text.
pub open spec fn ends_with(text: Seq<u8>, pattern: Seq<u8>, k: int) -> bool {
    &&& 0 <= k <= pattern.len()
    &&& k <= text.len()
    &&& pattern.take(k) == text.skip(text.len() - k)
}

/// `k` is the length of the longest start of the pattern that ends the text.
pub open spec fn longest_end(text: Seq<u8>, pattern: Seq<u8>, k: int) -> bool {
    &&& ends_with(text, pattern, k)
    &&& forall|j: int| k < j ==> !#[trigger] ends_with(text, pattern, j)
}

/// The first `n` entries of the failure table: entry `i` is the length of the longest proper
/// border of the first `i + 1` bytes of the pattern.
pub open spec fn table_ok(pattern: Seq<u8>, table: Seq<usize>, n: int) -> bool {
    &&& n <= table.len()
    &&& forall|i: int|
        0 <= i < n ==> longest_end(pattern.subrange(1, i + 1), pattern, #[trigger] table[i] as int)
}

proof fn lemma_ends_with_push(text: Seq<u8>, pattern: Seq<u8>, k: int, c: u8)
    requires
        0 < k,
    ensures
        ends_with(text.push(c), pattern, k) == (k <= pattern.len() && ends_with(text, pattern, k - 1)
            && pattern[k - 1] == c),
{
    let longer = text.push(c);
    let whole = pattern.take(k);
    let end = longer.skip(longer.len() - k);
    let shorter = pattern.take(k - 1);
    let inner = text.skip(text.len() - (k - 1));
    if ends_with(longer, pattern, k) {
        assert(whole[k - 1] == end[k - 1]);
        assert forall|i: int| 0 <= i < k - 1 implies shorter[i] == inner[i] by {
            assert(whole[i] == end[i]);
        }
        assert(shorter =~= inner);
    }
    if k <= pattern.len() && ends_with(text, pattern, k - 1) && pattern[k - 1] == c {
        assert forall|i: int| 0 <= i < k implies whole[i] == end[i] by {
            if i < k - 1 {
                assert(shorter[i] == inner[i]);
            }
        }
        assert(whole =~= end);
    }
}

/// A shorter start of the pattern ends the text exactly when it ends the longer start that does.
proof fn lemma_border(text: Seq<u8>, pattern: Seq<u8>, k: int, j: int)
    requires
        ends_with(text, pattern, k),
        0 <= j < k,
    ensures
        ends_with(text, pattern, j) == ends_with(pattern.subrange(1, k), pattern, j),
{
    let inner = pattern.subrange(1, k);
    let whole = pattern.take(k);
    let end = text.skip(text.len() - k);
    let short_end = text.skip(text.len() - j);
    let inner_end = inner.skip(inner.len() - j);
    assert forall|i: int| 0 <= i < j implies short_end[i] == inner_end[i] by {
        assert(whole[k - j + i] == end[k - j + i]);
    }
    assert(short_end =~= inner_end);
}

/// One step of the search: the longest match at the end of a text, after one more byte.
pub(crate) fn advance(
    pattern: &[u8],
    table: &Vec<usize>,
    matched: usize,
    c: u8,
    Ghost(text): Ghost<Seq<u8>>,
) -> (r: usize)
    requires
        matched < pattern.len(),
        longest_end(text, pattern@, matched as int),
        table_ok(pattern@, table@, matched as int),
    ensures
        longest_end(text.push(c), pattern@, r as int),
{
    let mut k: usize = matched;
    while k > 0 && c != pattern[k as usize]
        invariant
            k <= matched < pattern.len(),
            table_ok(pattern@, table@, matched as int),
            ends_with(text, pattern@, k as int),
            forall|j: int|
                k < j && #[trigger] ends_with(text, pattern@, j) ==> j < pattern.len()
                    && pattern@[j] != c,
        decreases k,
    {
        let b = table[k - 1];
        proof {
            let inner = pattern@.subrange(1, k as int);
            assert(longest_end(inner, pattern@, b as int));
            lemma_border(text, pattern@, k as int, b as int);
            assert forall|j: int| b < j && #[trigger] ends_with(text, pattern@, j) implies j
                < pattern.len() && pattern@[j] != c by {
                if j < k {
                    lemma_border(text, pattern@, k as int, j);
                }
            }
        }
        k = b;
    }
    let r: usize = if c == pattern[k] {
        k + 1
    } else {
        0
    };
    proof {
        let longer = text.push(c);
        if r > 0 {
            lemma_ends_with_push(text, pattern@, r as int, c);
        } else {
            assert(pattern@.take(0) =~= longer.skip(longer.len() as int));
        }
        assert forall|j: int| r < j implies !#[trigger] ends_with(longer, pattern@, j) by {
            lemma_ends_with_push(text, pattern@, j, c);
            if ends_with(longer, pattern@, j) {
                assert(ends_with(text, pattern@, j - 1));
            }
        }
    }
    r
}

/// The failure table of a pattern.
pub(crate) fn failure_table(pattern: &[u8]) -> (r: Vec<usize>)
    requires
        pattern.len() > 0,
    ensures
        table_ok(pattern@, r@, pattern@.len() as int),
{
    let mut table: Vec<usize> = Vec::new();
    table.push(0);
    let mut prefix_len: usize = 0;
    proof {
        lemma_nothing_matched(pattern@.subrange(1, 1), pattern@);
    }
    let mut i: usize = 1;
    while i < pattern.len()
        invariant
            1 <= i <= pattern.len(),
            table.len() == i,
            table_ok(pattern@, table@, i as int),
            longest_end(pattern@.subrange(1, i as int), pattern@, prefix_len as int),
        decreases pattern.len() - i,
    {
        let ghost text = pattern@.subrange(1, i as int);
        prefix_len = advance(pattern, &table, prefix_len, pattern[i], Ghost(text));
        proof {
            assert(text.push(pattern@[i as int]) == pattern@.subrange(1, i + 1));
        }
        table.push(prefix_len);
        i += 1;
    }
    table
}

/// Of an empty text, the longest match at the end is empty.
pub(crate) proof fn lemma_nothing_matched(text: Seq<u8>, pattern: Seq<u8>)
    requires
        text.len() == 0,
    ensures
        longest_end(text, pattern, 0),
{
    assert(pattern.take(0) =~= text.skip(0));
}

/// A match of the whole pattern at the end of a text is an occurrence.
pub(crate) proof fn lemma_whole_match(text: Seq<u8>, pattern: Seq<u8>)
    ensures
        ends_with(text, pattern, pattern.len() as int) == occurs_at(
            text,
            pattern,
            text.len() - pattern.len(),
        ),
{
    if pattern.len() <= text.len() {
        let i = text.len() - pattern.len();
        assert(text.subrange(i, i + pattern.len()) =~= text.skip(i));
        assert(pattern.take(pattern.len() as int) =~= pattern);
    }
}

/// What a search finds is the pattern, byte for byte, from the place where the search began on.
pub proof fn law_match_is_real(hay: Seq<u8>, pattern: Seq<u8>, from: int)
    requires
        0 <= from,
    ensures
        first_occurrence(hay, pattern, from) matches Some(p) ==> {
            &&& from <= p
            &&& p + pattern.len() <= hay.len()
            &&& forall|i: int| 0 <= i < pattern.len() ==> hay[p + i] == #[trigger] pattern[i]
        },
{
    law_first_occurrence(hay, pattern, from);
    if let Some(p) = first_occurrence(hay, pattern, from) {
        assert forall|i: int| 0 <= i < pattern.len() implies hay[p + i] == #[trigger] pattern[i] by {
            assert(hay.subrange(p, p + pattern.len())[i] == pattern[i]);
        }
    }
}

/// No place where the pattern stands is passed over.
pub proof fn law_no_match_is_missed(hay: Seq<u8>, pattern: Seq<u8>, from: int, q: int)
    requires
        0 <= from <= q,
        q + pattern.len() <= hay.len(),
        forall|i: int| 0 <= i < pattern.len() ==> hay[q + i] == #[trigger] pattern[i],
    ensures
        first_occurrence(hay, pattern, from) matches Some(p) && p <= q,
{
    law_first_occurrence(hay, pattern, from);
    assert(hay.subrange(q, q + pattern.len()) =~= pattern);
    assert(occurs_at(hay, pattern, q));
}

}
