//! ANSI control sequences: which bytes of a terminal's output are visible.
//!
//! CSI and OSC sequences, the string sequences that ST ends, other two-byte ESC sequences and
//! bare C1 controls are invisible; every other byte is visible.

use vstd::prelude::*;

use crate::search;

verus! {

/// Where a scan stands: outside any control sequence, or inside one.
#[derive(Debug, Clone, Copy, PartialEq, Eq, Structural)]
pub enum AnsiState {
    Ground,
    Escape,
    EscapeIntermediate,
    Csi,
    Osc,
    OscEscape,
    StString,
    StStringEscape,
}

/// The state after one more byte.
pub open spec fn next_state(state: AnsiState, b: u8) -> AnsiState {
    match state {
        AnsiState::Ground => if b == 0x1B {
            AnsiState::Escape
        } else if b == 0x9B {
            AnsiState::Csi
        } else if b == 0x9D {
            AnsiState::Osc
        } else if b == 0x90 || b == 0x98 || b == 0x9E || b == 0x9F {
            AnsiState::StString
        } else {
            AnsiState::Ground
        },
        AnsiState::Escape => if b == 0x5B {
            AnsiState::Csi
        } else if b == 0x5D {
            AnsiState::Osc
        } else if b == 0x50 || b == 0x58 || b == 0x5E || b == 0x5F {
            AnsiState::StString
        } else if b == 0x1B {
            AnsiState::Escape
        } else if 0x20 <= b <= 0x2F {
            AnsiState::EscapeIntermediate
        } else {
            AnsiState::Ground
        },
        AnsiState::EscapeIntermediate => if b == 0x1B {
            AnsiState::Escape
        } else if 0x30 <= b <= 0x7E {
            AnsiState::Ground
        } else {
            AnsiState::EscapeIntermediate
        },
        AnsiState::Csi => if b == 0x1B {
            AnsiState::Escape
        } else if 0x40 <= b <= 0x7E {
            AnsiState::Ground
        } else {
            AnsiState::Csi
        },
        AnsiState::Osc => if b == 0x07 || b == 0x9C {
            AnsiState::Ground
        } else if b == 0x1B {
            AnsiState::OscEscape
        } else {
            AnsiState::Osc
        },
        AnsiState::OscEscape => if b == 0x5C {
            AnsiState::Ground
        } else if b == 0x1B {
            AnsiState::OscEscape
        } else {
            AnsiState::Osc
        },
        AnsiState::StString => if b == 0x9C {
            AnsiState::Ground
        } else if b == 0x1B {
            AnsiState::StStringEscape
        } else {
            AnsiState::StString
        },
        AnsiState::StStringEscape => if b == 0x5C {
            AnsiState::Ground
        } else if b == 0x1B {
            AnsiState::StStringEscape
        } else {
            AnsiState::StString
        },
    }
}

/// A byte that is shown when it comes outside any control sequence.
pub open spec fn shown(b: u8) -> bool {
    b != 0x1B && !(0x80 <= b <= 0x9F)
}

/// The state after a run of bytes.
pub open spec fn state_after(bytes: Seq<u8>) -> AnsiState
    decreases bytes.len(),
{
    if bytes.len() == 0 {
        AnsiState::Ground
    } else {
        next_state(state_after(bytes.drop_last()), bytes.last())
    }
}

/// The byte at `i` is visible: no control sequence holds it.
pub open spec fn visible(bytes: Seq<u8>, i: int) -> bool {
    state_after(bytes.take(i)) == AnsiState::Ground && shown(bytes[i])
}

/// The positions of the visible bytes among those from `from` up to `n`, in order. The scan
/// starts at the first byte, so that a sequence that began before `from` stays invisible.
pub open spec fn visible_positions(bytes: Seq<u8>, from: int, n: int) -> Seq<int>
    decreases n,
{
    if n <= 0 {
        seq![]
    } else if from <= n - 1 && visible(bytes, n - 1) {
        visible_positions(bytes, from, n - 1).push(n - 1)
    } else {
        visible_positions(bytes, from, n - 1)
    }
}

/// The bytes at some positions.
pub open spec fn bytes_at(bytes: Seq<u8>, positions: Seq<int>) -> Seq<u8> {
    positions.map_values(|i: int| bytes[i])
}

/// The first place, from `from` on, where the visible bytes hold the pattern: the position of
/// its first byte, and the position after its last.
pub open spec fn first_visible(bytes: Seq<u8>, pattern: Seq<u8>, from: int) -> Option<(int, int)> {
    if pattern.len() == 0 {
        Some((from, from))
    } else {
        let positions = visible_positions(bytes, from, bytes.len() as int);
        match search::first_occurrence(bytes_at(bytes, positions), pattern, 0) {
            Some(k) => Some((positions[k], positions[k + pattern.len() - 1] + 1)),
            None => None,
        }
    }
}

impl AnsiState {
    /// Takes one byte, and says whether it is visible.
    pub(crate) fn step(&mut self, b: u8) -> (r: bool)
        ensures
            *final(self) == next_state(*old(self), b),
            r == (*old(self) == AnsiState::Ground && shown(b)),
    {
        let before = *self;
        let after = match before {
            AnsiState::Ground => if b == 0x1B {
                AnsiState::Escape
            } else if b == 0x9B {
                AnsiState::Csi
            } else if b == 0x9D {
                AnsiState::Osc
            } else if b == 0x90 || b == 0x98 || b == 0x9E || b == 0x9F {
                AnsiState::StString
            } else {
                AnsiState::Ground
            },
            AnsiState::Escape => if b == 0x5B {
                AnsiState::Csi
            } else if b == 0x5D {
                AnsiState::Osc
            } else if b == 0x50 || b == 0x58 || b == 0x5E || b == 0x5F {
                AnsiState::StString
            } else if b == 0x1B {
                AnsiState::Escape
            } else if 0x20 <= b && b <= 0x2F {
                AnsiState::EscapeIntermediate
            } else {
                AnsiState::Ground
            },
            AnsiState::EscapeIntermediate => if b == 0x1B {
                AnsiState::Escape
            } else if 0x30 <= b && b <= 0x7E {
                AnsiState::Ground
            } else {
                AnsiState::EscapeIntermediate
            },
            AnsiState::Csi => if b == 0x1B {
                AnsiState::Escape
            } else if 0x40 <= b && b <= 0x7E {
                AnsiState::Ground
            } else {
                AnsiState::Csi
            },
            AnsiState::Osc => if b == 0x07 || b == 0x9C {
                AnsiState::Ground
            } else if b == 0x1B {
                AnsiState::OscEscape
            } else {
                AnsiState::Osc
            },
            AnsiState::OscEscape => if b == 0x5C {
                AnsiState::Ground
            } else if b == 0x1B {
                AnsiState::OscEscape
            } else {
                AnsiState::Osc
            },
            AnsiState::StString => if b == 0x9C {
                AnsiState::Ground
            } else if b == 0x1B {
                AnsiState::StStringEscape
            } else {
                AnsiState::StString
            },
            AnsiState::StStringEscape => if b == 0x5C {
                AnsiState::Ground
            } else if b == 0x1B {
                AnsiState::StStringEscape
            } else {
                AnsiState::StString
            },
        };
        *self = after;
        before == AnsiState::Ground && b != 0x1B && !(0x80 <= b && b <= 0x9F)
    }
}

/// A longer scan finds the same visible bytes first.
pub(crate) proof fn lemma_positions_prefix(bytes: Seq<u8>, from: int, n: int, m: int)
    requires
        n <= m,
    ensures
        visible_positions(bytes, from, n).len() <= visible_positions(bytes, from, m).len(),
        visible_positions(bytes, from, n) == visible_positions(bytes, from, m).take(
            visible_positions(bytes, from, n).len() as int,
        ),
    decreases m,
{
    let a = visible_positions(bytes, from, n);
    let b = visible_positions(bytes, from, m);
    if n < m && 0 < m {
        lemma_positions_prefix(bytes, from, n, m - 1);
        assert(a =~= b.take(a.len() as int));
    } else {
        assert(a =~= b.take(a.len() as int));
    }
}

/// The visible positions are in order, lie in the range, and are exactly the visible ones.
pub proof fn law_visible_positions(bytes: Seq<u8>, from: int, n: int)
    ensures
        ({
            let vs = visible_positions(bytes, from, n);
            &&& forall|i: int|
                0 <= i < vs.len() ==> from <= #[trigger] vs[i] < n && 0 <= vs[i] && visible(
                    bytes,
                    vs[i],
                )
            &&& forall|i: int, j: int| 0 <= i < j < vs.len() ==> vs[i] < vs[j]
            &&& forall|p: int|
                from <= p < n && 0 <= p && #[trigger] visible(bytes, p) ==> vs.contains(p)
        }),
    decreases n,
{
    if n > 0 {
        law_visible_positions(bytes, from, n - 1);
        let before = visible_positions(bytes, from, n - 1);
        let vs = visible_positions(bytes, from, n);
        assert forall|p: int|
            from <= p < n && 0 <= p && #[trigger] visible(bytes, p) implies vs.contains(p) by {
            if p < n - 1 {
                assert(before.contains(p));
                let k = choose|k: int| 0 <= k < before.len() && before[k] == p;
                assert(vs[k] == p);
            } else {
                assert(vs[vs.len() - 1] == p);
            }
        }
    }
}

/// No visible position comes before the place where the scan starts to count.
proof fn lemma_none_before(bytes: Seq<u8>, from: int, n: int)
    requires
        n <= from,
    ensures
        visible_positions(bytes, from, n) == Seq::<int>::empty(),
    decreases n,
{
    if n > 0 {
        lemma_none_before(bytes, from, n - 1);
    }
}

/// Counting from a visible position on leaves out the positions before it.
proof fn lemma_window_start(bytes: Seq<u8>, from: int, n: int, k: int)
    requires
        0 <= k < visible_positions(bytes, from, n).len(),
    ensures
        visible_positions(bytes, visible_positions(bytes, from, n)[k], n) == visible_positions(
            bytes,
            from,
            n,
        ).skip(k),
    decreases n,
{
    let whole = visible_positions(bytes, from, n);
    let before = visible_positions(bytes, from, n - 1);
    law_visible_positions(bytes, from, n);
    if k < before.len() {
        lemma_window_start(bytes, from, n - 1, k);
        assert(whole[k] == before[k]);
        assert(whole.skip(k) =~= visible_positions(bytes, whole[k], n));
    } else {
        lemma_none_before(bytes, n - 1, n - 1);
        assert(whole.skip(k) =~= seq![n - 1]);
    }
}

/// Counting up to a visible position leaves out the positions after it.
proof fn lemma_window_end(bytes: Seq<u8>, from: int, n: int, j: int)
    requires
        0 <= j < visible_positions(bytes, from, n).len(),
    ensures
        visible_positions(bytes, from, visible_positions(bytes, from, n)[j] + 1)
            == visible_positions(bytes, from, n).take(j + 1),
    decreases n,
{
    let whole = visible_positions(bytes, from, n);
    let before = visible_positions(bytes, from, n - 1);
    if j < before.len() {
        lemma_window_end(bytes, from, n - 1, j);
        assert(whole[j] == before[j]);
        assert(whole.take(j + 1) =~= before.take(j + 1));
    } else {
        assert(whole.take(j + 1) =~= whole);
    }
}

/// What a match among the visible bytes is: it starts and ends with a visible byte, starts no
/// earlier than asked for, and the visible bytes in it are exactly the pattern.
pub proof fn law_visible_match(bytes: Seq<u8>, pattern: Seq<u8>, from: int)
    requires
        0 <= from <= bytes.len(),
        0 < pattern.len(),
    ensures
        first_visible(bytes, pattern, from) matches Some((start, end)) ==> {
            &&& from <= start < end <= bytes.len()
            &&& visible(bytes, start)
            &&& visible(bytes, end - 1)
            &&& bytes_at(bytes, visible_positions(bytes, start, end)) == pattern
        },
{
    let n = bytes.len() as int;
    let m = pattern.len() as int;
    let whole = visible_positions(bytes, from, n);
    let text = bytes_at(bytes, whole);
    law_visible_positions(bytes, from, n);
    search::law_first_occurrence(text, pattern, 0);
    match search::first_occurrence(text, pattern, 0) {
        Some(k) => {
            let tail = whole.skip(k);
            lemma_window_start(bytes, from, n, k);
            lemma_window_end(bytes, whole[k], n, m - 1);
            assert(tail[m - 1] == whole[k + m - 1]);
            assert(bytes_at(bytes, tail.take(m)) =~= text.subrange(k, k + m));
        },
        None => {},
    }
}

/// Among bytes without any control sequence, every byte is visible.
proof fn lemma_plain_state(bytes: Seq<u8>)
    requires
        forall|i: int| 0 <= i < bytes.len() ==> #[trigger] shown(bytes[i]),
    ensures
        state_after(bytes) == AnsiState::Ground,
    decreases bytes.len(),
{
    if bytes.len() > 0 {
        let rest = bytes.drop_last();
        assert forall|i: int| 0 <= i < rest.len() implies #[trigger] shown(rest[i]) by {
            assert(shown(bytes[i]));
        }
        lemma_plain_state(rest);
        assert(shown(bytes[bytes.len() - 1]));
    }
}

proof fn lemma_plain_positions(bytes: Seq<u8>, from: int, n: int)
    requires
        0 <= from,
        n <= bytes.len(),
        forall|i: int| 0 <= i < bytes.len() ==> #[trigger] shown(bytes[i]),
    ensures
        visible_positions(bytes, from, n) == Seq::new(
            if n <= from {
                0
            } else {
                (n - from) as nat
            },
            |i: int| from + i,
        ),
    decreases n,
{
    if n > 0 {
        lemma_plain_positions(bytes, from, n - 1);
        let rest = bytes.take(n - 1);
        assert forall|i: int| 0 <= i < rest.len() implies #[trigger] shown(rest[i]) by {
            assert(shown(bytes[i]));
        }
        lemma_plain_state(rest);
        assert(shown(bytes[n - 1]));
        assert(visible(bytes, n - 1));
    }
    assert(visible_positions(bytes, from, n) =~= Seq::new(
        if n <= from {
            0
        } else {
            (n - from) as nat
        },
        |i: int| from + i,
    ));
}

/// Where no byte belongs to a control sequence, skipping control sequences changes nothing: the
/// visible match is the plain one.
pub proof fn law_plain_bytes_match_alike(bytes: Seq<u8>, pattern: Seq<u8>, from: int)
    requires
        0 <= from <= bytes.len(),
        0 < pattern.len(),
        forall|i: int| 0 <= i < bytes.len() ==> #[trigger] shown(bytes[i]),
    ensures
        first_visible(bytes, pattern, from) == match search::first_occurrence(
            bytes,
            pattern,
            from,
        ) {
            Some(p) => Some((p, p + pattern.len())),
            None => None,
        },
{
    let n = bytes.len() as int;
    lemma_plain_positions(bytes, from, n);
    let vs = visible_positions(bytes, from, n);
    let text = bytes_at(bytes, vs);
    assert(text =~= bytes.skip(from));
    search::lemma_shifted(bytes, pattern, from, 0);
    search::law_first_occurrence(text, pattern, 0);
}

/// No control sequence is open after these bytes.
pub open spec fn outside(bytes: Seq<u8>) -> bool {
    state_after(bytes) == AnsiState::Ground
}

/// None of the bytes that follow the first `from` of them, up to `to`, is visible, whatever comes
/// after.
pub open spec fn hidden(bytes: Seq<u8>, from: nat, to: nat) -> bool {
    forall|i: int| from <= i < to ==> !#[trigger] visible(bytes, i)
}

proof fn lemma_state_push(bytes: Seq<u8>, b: u8)
    ensures
        state_after(bytes.push(b)) == next_state(state_after(bytes), b),
{
    assert(bytes.push(b).drop_last() =~= bytes);
}

/// Bytes that do not change a state leave it, and are hidden if it is inside a sequence.
proof fn lemma_stays(before: Seq<u8>, run: Seq<u8>, after: Seq<u8>)
    requires
        forall|i: int|
            0 <= i < run.len() ==> next_state(state_after(before), #[trigger] run[i])
                == state_after(before),
    ensures
        state_after(before + run) == state_after(before),
        state_after(before) != AnsiState::Ground ==> hidden(
            before + run + after,
            before.len(),
            before.len() + run.len(),
        ),
    decreases run.len(),
{
    if run.len() == 0 {
        assert(before + run =~= before);
    } else {
        let less = run.drop_last();
        assert forall|i: int| 0 <= i < less.len() implies next_state(
            state_after(before),
            #[trigger] less[i],
        ) == state_after(before) by {
            assert(less[i] == run[i]);
        }
        lemma_stays(before, less, seq![run.last()] + after);
        assert(before + less + (seq![run.last()] + after) =~= before + run + after);
        assert(before + run =~= (before + less).push(run.last()));
        lemma_state_push(before + less, run.last());
        let whole = before + run + after;
        let last = before.len() + run.len() - 1;
        assert(whole.take(last) =~= before + less);
    }
}

/// One byte after some others.
proof fn lemma_one(before: Seq<u8>, b: u8, after: Seq<u8>)
    ensures
        state_after(before.push(b)) == next_state(state_after(before), b),
        visible(before.push(b) + after, before.len() as int) == (state_after(before)
            == AnsiState::Ground && shown(b)),
{
    lemma_state_push(before, b);
    assert((before.push(b) + after).take(before.len() as int) =~= before);
}

/// Nothing is open at the beginning. Outside any sequence a byte is visible unless it is ESC or a
/// C1 control, and after a visible byte nothing is open either.
pub proof fn law_text_is_visible(before: Seq<u8>, b: u8, after: Seq<u8>)
    ensures
        outside(seq![]),
        outside(before) ==> visible(before.push(b) + after, before.len() as int) == !(b == 0x1B
            || 0x80 <= b <= 0x9F),
        outside(before) && !(b == 0x1B || 0x80 <= b <= 0x9F) ==> outside(before.push(b)),
{
    lemma_one(before, b, after);
}

/// A C1 control that begins no sequence is hidden, and nothing is open after it.
pub proof fn law_lone_control_is_hidden(before: Seq<u8>, b: u8, after: Seq<u8>)
    requires
        outside(before),
        0x80 <= b <= 0x9F,
        b != 0x9B && b != 0x9D && b != 0x90 && b != 0x98 && b != 0x9E && b != 0x9F,
    ensures
        outside(before.push(b)),
        !visible(before.push(b) + after, before.len() as int),
{
    lemma_one(before, b, after);
}

/// Two bytes, or one C1 control, that begin a sequence.
pub open spec fn begins(intro: Seq<u8>, letter: u8, control: u8) -> bool {
    intro == seq![0x1Bu8, letter] || intro == seq![control]
}

proof fn lemma_intro(before: Seq<u8>, intro: Seq<u8>, letter: u8, control: u8, after: Seq<u8>)
    requires
        outside(before),
        begins(intro, letter, control),
        !shown(control),
    ensures
        state_after(before + intro) == if intro == seq![0x1Bu8, letter] {
            next_state(AnsiState::Escape, letter)
        } else {
            next_state(AnsiState::Ground, control)
        },
        hidden(before + intro + after, before.len(), before.len() + intro.len()),
{
    let whole = before + intro + after;
    let n = before.len() as int;
    if intro == seq![0x1Bu8, letter] {
        let one = before.push(0x1B);
        lemma_one(before, 0x1B, seq![letter] + after);
        lemma_one(one, letter, after);
        assert(before + intro =~= one.push(letter));
        assert(whole =~= one + (seq![letter] + after));
        assert(whole =~= one.push(letter) + after);
    } else {
        lemma_one(before, control, after);
        assert(before + intro =~= before.push(control));
    }
}

/// A CSI sequence (ESC `[`, or the control 0x9B) lasts until the first byte from 0x40 to 0x7E, and
/// that byte ends it: all of it is hidden, and what follows is not part of it.
pub proof fn law_csi_is_skipped(
    before: Seq<u8>,
    intro: Seq<u8>,
    params: Seq<u8>,
    end: u8,
    after: Seq<u8>,
)
    requires
        outside(before),
        begins(intro, 0x5B, 0x9B),
        forall|i: int|
            0 <= i < params.len() ==> #[trigger] params[i] != 0x1B && !(0x40 <= params[i] <= 0x7E),
        0x40 <= end <= 0x7E,
    ensures
        outside(before + intro + params + seq![end]),
        hidden(
            before + intro + params + seq![end] + after,
            before.len(),
            before.len() + intro.len() + params.len() + 1,
        ),
{
    lemma_sequence(before, intro, 0x5B, 0x9B, params, seq![end], after);
    lemma_one(before + intro + params, end, after);
    assert(before + intro + params + seq![end] =~= (before + intro + params).push(end));
}

/// A sequence whose beginning is known, up to its end: its beginning and its body are hidden.
proof fn lemma_sequence(
    before: Seq<u8>,
    intro: Seq<u8>,
    letter: u8,
    control: u8,
    body: Seq<u8>,
    end: Seq<u8>,
    after: Seq<u8>,
)
    requires
        outside(before),
        begins(intro, letter, control),
        !shown(control),
        next_state(AnsiState::Escape, letter) == next_state(AnsiState::Ground, control),
        next_state(AnsiState::Escape, letter) != AnsiState::Ground,
        forall|i: int|
            0 <= i < body.len() ==> next_state(
                next_state(AnsiState::Escape, letter),
                #[trigger] body[i],
            ) == next_state(AnsiState::Escape, letter),
    ensures
        state_after(before + intro + body) == next_state(AnsiState::Escape, letter),
        hidden(
            before + intro + body + end + after,
            before.len(),
            before.len() + intro.len() + body.len(),
        ),
{
    lemma_intro(before, intro, letter, control, body + end + after);
    lemma_stays(before + intro, body, end + after);
    let whole = before + intro + body + end + after;
    assert(before + intro + (body + end + after) =~= whole);
    assert(before + intro + body + (end + after) =~= whole);
}

/// An OSC sequence (ESC `]`, or the control 0x9D) lasts until BEL, the control 0x9C, or ESC and a
/// backslash.
pub proof fn law_osc_is_skipped(
    before: Seq<u8>,
    intro: Seq<u8>,
    body: Seq<u8>,
    end: Seq<u8>,
    after: Seq<u8>,
)
    requires
        outside(before),
        begins(intro, 0x5D, 0x9D),
        forall|i: int|
            0 <= i < body.len() ==> #[trigger] body[i] != 0x1B && body[i] != 0x07 && body[i] != 0x9C,
        end == seq![0x07u8] || end == seq![0x9Cu8] || end == seq![0x1Bu8, 0x5Cu8],
    ensures
        outside(before + intro + body + end),
        hidden(
            before + intro + body + end + after,
            before.len(),
            before.len() + intro.len() + body.len() + end.len(),
        ),
{
    lemma_sequence(before, intro, 0x5D, 0x9D, body, end, after);
    lemma_string_end(before + intro + body, end, after);
}

/// What ends a string sequence is hidden, and ends it.
proof fn lemma_string_end(open: Seq<u8>, end: Seq<u8>, after: Seq<u8>)
    requires
        end == seq![0x1Bu8, 0x5Cu8] && (state_after(open) == AnsiState::Osc || state_after(open)
            == AnsiState::StString) || end.len() == 1 && next_state(state_after(open), end[0])
            == AnsiState::Ground && state_after(open) != AnsiState::Ground,
    ensures
        outside(open + end),
        hidden(open + end + after, open.len(), open.len() + end.len()),
{
    if end.len() == 1 {
        lemma_one(open, end[0], after);
        assert(open + end =~= open.push(end[0]));
    } else {
        let one = open.push(0x1B);
        lemma_one(open, 0x1B, seq![0x5Cu8] + after);
        lemma_one(one, 0x5C, after);
        assert(open + end =~= one.push(0x5C));
        assert(open + end + after =~= one + (seq![0x5Cu8] + after));
    }
}

/// The other string sequences (ESC and `P`, `X`, `^` or `_`, or the controls 0x90, 0x98, 0x9E and
/// 0x9F) last until the control 0x9C, or ESC and a backslash. BEL does not end them.
pub proof fn law_string_is_skipped(
    before: Seq<u8>,
    intro: Seq<u8>,
    body: Seq<u8>,
    end: Seq<u8>,
    after: Seq<u8>,
)
    requires
        outside(before),
        begins(intro, 0x50, 0x90) || begins(intro, 0x58, 0x98) || begins(intro, 0x5E, 0x9E)
            || begins(intro, 0x5F, 0x9F),
        forall|i: int| 0 <= i < body.len() ==> #[trigger] body[i] != 0x1B && body[i] != 0x9C,
        end == seq![0x9Cu8] || end == seq![0x1Bu8, 0x5Cu8],
    ensures
        outside(before + intro + body + end),
        hidden(
            before + intro + body + end + after,
            before.len(),
            before.len() + intro.len() + body.len() + end.len(),
        ),
{
    if begins(intro, 0x50, 0x90) {
        lemma_sequence(before, intro, 0x50, 0x90, body, end, after);
    } else if begins(intro, 0x58, 0x98) {
        lemma_sequence(before, intro, 0x58, 0x98, body, end, after);
    } else if begins(intro, 0x5E, 0x9E) {
        lemma_sequence(before, intro, 0x5E, 0x9E, body, end, after);
    } else {
        lemma_sequence(before, intro, 0x5F, 0x9F, body, end, after);
    }
    lemma_string_end(before + intro + body, end, after);
}

/// ESC inside a string sequence, without a backslash after it, belongs to the string: the sequence
/// goes on as if the two bytes were not there.
pub proof fn law_escape_in_a_string(
    before: Seq<u8>,
    intro: Seq<u8>,
    body: Seq<u8>,
    b: u8,
    after: Seq<u8>,
)
    requires
        outside(before),
        begins(intro, 0x5D, 0x9D) && (forall|i: int|
            0 <= i < body.len() ==> #[trigger] body[i] != 0x1B && body[i] != 0x07 && body[i] != 0x9C)
            || (begins(intro, 0x50, 0x90) || begins(intro, 0x58, 0x98) || begins(intro, 0x5E, 0x9E)
            || begins(intro, 0x5F, 0x9F)) && (forall|i: int|
            0 <= i < body.len() ==> #[trigger] body[i] != 0x1B && body[i] != 0x9C),
    ensures
        b != 0x5C && b != 0x1B ==> state_after(before + intro + body + seq![0x1Bu8, b])
            == state_after(before + intro + body),
        b == 0x1B ==> state_after(before + intro + body + seq![0x1Bu8, b]) == state_after(
            before + intro + body + seq![0x1Bu8],
        ),
        hidden(
            before + intro + body + seq![0x1Bu8, b] + after,
            before.len(),
            before.len() + intro.len() + body.len() + 2,
        ),
{
    let open = before + intro + body;
    let pair = seq![0x1Bu8, b];
    if begins(intro, 0x5D, 0x9D) && (forall|i: int|
        0 <= i < body.len() ==> #[trigger] body[i] != 0x1B && body[i] != 0x07 && body[i] != 0x9C) {
        lemma_sequence(before, intro, 0x5D, 0x9D, body, pair, after);
    } else if begins(intro, 0x50, 0x90) {
        lemma_sequence(before, intro, 0x50, 0x90, body, pair, after);
    } else if begins(intro, 0x58, 0x98) {
        lemma_sequence(before, intro, 0x58, 0x98, body, pair, after);
    } else if begins(intro, 0x5E, 0x9E) {
        lemma_sequence(before, intro, 0x5E, 0x9E, body, pair, after);
    } else {
        lemma_sequence(before, intro, 0x5F, 0x9F, body, pair, after);
    }
    let one = open.push(0x1B);
    lemma_one(open, 0x1B, seq![b] + after);
    lemma_one(one, b, after);
    assert(open + pair =~= one.push(b));
    assert(open + seq![0x1Bu8] =~= one);
    assert(open + pair + after =~= one + (seq![b] + after));
}

/// Any other byte after ESC makes a sequence of two bytes.
pub proof fn law_two_byte_escape_is_skipped(before: Seq<u8>, b: u8, after: Seq<u8>)
    requires
        outside(before),
        b != 0x1B && b != 0x5B && b != 0x5D && b != 0x50 && b != 0x58 && b != 0x5E && b != 0x5F,
        !(0x20 <= b <= 0x2F),
    ensures
        outside(before.push(0x1B).push(b)),
        hidden(before.push(0x1B).push(b) + after, before.len(), before.len() + 2),
{
    let one = before.push(0x1B);
    lemma_one(before, 0x1B, seq![b] + after);
    lemma_one(one, b, after);
    assert(one.push(b) + after =~= one + (seq![b] + after));
}

/// After ESC and a byte from 0x20 to 0x2F the sequence lasts until the first byte from 0x30 to 0x7E.
pub proof fn law_long_escape_is_skipped(
    before: Seq<u8>,
    first: u8,
    middle: Seq<u8>,
    end: u8,
    after: Seq<u8>,
)
    requires
        outside(before),
        0x20 <= first <= 0x2F,
        forall|i: int|
            0 <= i < middle.len() ==> #[trigger] middle[i] != 0x1B && !(0x30 <= middle[i] <= 0x7E),
        0x30 <= end <= 0x7E,
    ensures
        outside(before.push(0x1B).push(first) + middle + seq![end]),
        hidden(
            before.push(0x1B).push(first) + middle + seq![end] + after,
            before.len(),
            before.len() + middle.len() + 3,
        ),
{
    let one = before.push(0x1B);
    let two = one.push(first);
    let whole = two + middle + seq![end] + after;
    lemma_one(before, 0x1B, seq![first] + middle + seq![end] + after);
    lemma_one(one, first, middle + seq![end] + after);
    lemma_stays(two, middle, seq![end] + after);
    lemma_one(two + middle, end, after);
    assert(two + middle + seq![end] =~= (two + middle).push(end));
    assert(whole =~= one + (seq![first] + middle + seq![end] + after));
    assert(whole =~= two + (middle + seq![end] + after));
    assert(whole =~= two + middle + (seq![end] + after));
}

/// A sequence that is not ended hides the byte that comes next, whatever it is. Another ESC begins
/// anew: what follows is taken as if the unfinished sequence were not there.
pub proof fn law_unfinished_sequence_hides(
    before: Seq<u8>,
    intro: Seq<u8>,
    params: Seq<u8>,
    first: u8,
    b: u8,
    after: Seq<u8>,
)
    requires
        outside(before),
        begins(intro, 0x5B, 0x9B),
        forall|i: int|
            0 <= i < params.len() ==> #[trigger] params[i] != 0x1B && !(0x30 <= params[i] <= 0x7E),
        0x20 <= first <= 0x2F,
    ensures
        !visible(
            before + intro + params + seq![b] + after,
            (before.len() + intro.len() + params.len()) as int,
        ),
        !visible(
            before.push(0x1B).push(first) + params + seq![b] + after,
            (before.len() + 2 + params.len()) as int,
        ),
        !visible(before.push(0x1B).push(b) + after, before.len() as int + 1),
        state_after(before + intro + params + seq![0x1Bu8]) == state_after(before.push(0x1B)),
        state_after(before.push(0x1B).push(first) + params + seq![0x1Bu8]) == state_after(
            before.push(0x1B),
        ),
        state_after(before.push(0x1B).push(0x1B)) == state_after(before.push(0x1B)),
{
    let one = before.push(0x1B);
    let two = one.push(first);
    lemma_sequence(before, intro, 0x5B, 0x9B, params, seq![b], after);
    lemma_one(before + intro + params, b, after);
    lemma_one(before + intro + params, 0x1B, after);
    assert(before + intro + params + seq![b] =~= (before + intro + params).push(b));
    assert(before + intro + params + seq![0x1Bu8] =~= (before + intro + params).push(0x1B));
    lemma_one(before, 0x1B, seq![]);
    lemma_one(one, first, seq![]);
    lemma_one(one, b, after);
    lemma_one(one, 0x1B, after);
    lemma_stays(two, params, seq![]);
    lemma_one(two + params, b, after);
    lemma_one(two + params, 0x1B, after);
    assert(two + params + seq![b] =~= (two + params).push(b));
    assert(two + params + seq![0x1Bu8] =~= (two + params).push(0x1B));
}

/// A run of visible bytes that reads as the pattern: the positions are in order, from `from` on, and
/// no other visible byte lies between them.
pub open spec fn reads_as(bytes: Seq<u8>, pattern: Seq<u8>, from: int, at: Seq<int>) -> bool {
    &&& at.len() == pattern.len()
    &&& forall|i: int|
        0 <= i < at.len() ==> from <= #[trigger] at[i] < bytes.len() && visible(bytes, at[i])
            && bytes[at[i]] == pattern[i]
    &&& forall|i: int, j: int| 0 <= i < j < at.len() ==> at[i] < at[j]
    &&& forall|p: int|
        at[0] <= p <= at[at.len() - 1] && #[trigger] visible(bytes, p) ==> at.contains(p)
}

/// A search among the visible bytes finds the pattern wherever a run of them reads as it, at the
/// first such place, and tells where the run begins and ends.
pub proof fn law_visible_run_is_found(bytes: Seq<u8>, pattern: Seq<u8>, from: int, at: Seq<int>)
    requires
        0 <= from,
        0 < pattern.len(),
        reads_as(bytes, pattern, from, at),
    ensures
        first_visible(bytes, pattern, from) matches Some((start, end)) && start <= at[0] && (start
            == at[0] ==> end == at[at.len() - 1] + 1),
{
    let n = bytes.len() as int;
    let m = pattern.len() as int;
    let whole = visible_positions(bytes, from, n);
    let text = bytes_at(bytes, whole);
    law_visible_positions(bytes, from, n);
    assert(whole.contains(at[0]));
    let k = choose|k: int| 0 <= k < whole.len() && whole[k] == at[0];
    lemma_run_in_positions(bytes, pattern, from, at, k, m);
    assert forall|i: int| 0 <= i < m implies text.subrange(k, k + m)[i] == pattern[i] by {
        assert(whole[k + i] == at[i]);
        assert(bytes[at[i]] == pattern[i]);
    }
    assert(text.subrange(k, k + m) =~= pattern);
    assert(search::occurs_at(text, pattern, k));
    search::law_first_occurrence(text, pattern, 0);
    let q = search::first_occurrence(text, pattern, 0)->0;
    if q < k {
        assert(whole[q] < whole[k]);
    }
    assert(whole[k + (m - 1)] == at[m - 1]);
}

/// A run of visible bytes stands without a gap among the visible positions.
proof fn lemma_run_in_positions(
    bytes: Seq<u8>,
    pattern: Seq<u8>,
    from: int,
    at: Seq<int>,
    k: int,
    m: int,
)
    requires
        0 <= from,
        reads_as(bytes, pattern, from, at),
        0 < m <= at.len(),
        0 <= k < visible_positions(bytes, from, bytes.len() as int).len(),
        visible_positions(bytes, from, bytes.len() as int)[k] == at[0],
    ensures
        k + m <= visible_positions(bytes, from, bytes.len() as int).len(),
        forall|i: int|
            0 <= i < m ==> #[trigger] visible_positions(bytes, from, bytes.len() as int)[k + i]
                == at[i],
    decreases m,
{
    let n = bytes.len() as int;
    let whole = visible_positions(bytes, from, n);
    if m > 1 {
        lemma_run_in_positions(bytes, pattern, from, at, k, m - 1);
        law_visible_positions(bytes, from, n);
        let next = at[m - 1];
        assert(at[m - 2] < next);
        assert(visible(bytes, next));
        assert(whole.contains(next));
        let j = choose|j: int| 0 <= j < whole.len() && whole[j] == next;
        let i = k + m - 2;
        assert(whole[k + (m - 2)] == at[m - 2]);
        if j <= i {
            assert(whole[j] <= whole[i]);
        }
        if j > i + 1 {
            let p = whole[i + 1];
            assert(whole[i] < p < whole[j]);
            assert(visible(bytes, p));
            assert(at[0] <= p <= at[at.len() - 1]) by {
                if m - 1 < at.len() - 1 {
                    assert(at[m - 1] < at[at.len() - 1]);
                }
                if 0 < m - 2 {
                    assert(at[0] < at[m - 2]);
                }
            }
            assert(at.contains(p));
            let x = choose|x: int| 0 <= x < at.len() && at[x] == p;
            if x <= m - 2 {
                if x < m - 2 {
                    assert(at[x] < at[m - 2]);
                }
            } else if x > m - 1 {
                assert(at[m - 1] < at[x]);
            }
        }
        assert(whole[k + (m - 1)] == at[m - 1]);
    }
}

/// What a search among the visible bytes finds is a run of them that reads as the pattern.
pub proof fn law_found_run_reads_as_pattern(bytes: Seq<u8>, pattern: Seq<u8>, from: int)
    requires
        0 <= from,
        0 < pattern.len(),
    ensures
        first_visible(bytes, pattern, from) matches Some((start, end)) ==> exists|at: Seq<int>|
            #[trigger] reads_as(bytes, pattern, from, at) && at[0] == start && at[at.len() - 1] + 1
                == end,
{
    let n = bytes.len() as int;
    let m = pattern.len() as int;
    let whole = visible_positions(bytes, from, n);
    let text = bytes_at(bytes, whole);
    law_visible_positions(bytes, from, n);
    search::law_first_occurrence(text, pattern, 0);
    if let Some(q) = search::first_occurrence(text, pattern, 0) {
        let at = whole.subrange(q, q + m);
        assert forall|i: int| 0 <= i < at.len() implies from <= #[trigger] at[i] < bytes.len()
            && visible(bytes, at[i]) && bytes[at[i]] == pattern[i] by {
            assert(at[i] == whole[q + i]);
            assert(text[q + i] == bytes[whole[q + i]]);
            assert(text.subrange(q, q + m)[i] == pattern[i]);
        }
        assert forall|p: int|
            at[0] <= p <= at[at.len() - 1] && #[trigger] visible(bytes, p) implies at.contains(p) by {
            assert(whole.contains(p));
            let j = choose|j: int| 0 <= j < whole.len() && whole[j] == p;
            if j < q {
                assert(whole[j] < whole[q]);
            }
            if j > q + m - 1 {
                assert(whole[q + m - 1] < whole[j]);
            }
            assert(at[j - q] == p);
        }
        assert(reads_as(bytes, pattern, from, at));
    }
}

}
