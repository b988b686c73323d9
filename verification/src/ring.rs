//! A bounded ring buffer: where received bytes wait to be read.
//!
//! The reader of a port pushes; tool calls take what is there, or look for a pattern in it. The
//! buffer has an upper bound. Once it is full the oldest bytes make room for new ones, and every
//! byte lost this way is counted, so that a gap in the data can be seen.
//!
//! Times are nanoseconds of a monotonic clock that the caller reads.

use std::collections::VecDeque;

use vstd::prelude::*;
use vstd::slice::slice_subrange;

use crate::ansi;
use crate::ansi::AnsiState;
use crate::search;

verus! {

/// The largest capacity of a buffer.
pub const MAX_BUFFER_SIZE: usize = 16 * 1024 * 1024;

/// The longest pattern that a search accepts.
pub const MAX_PATTERN_SIZE: usize = 64 * 1024;

/// What a buffer holds and has counted.
#[verifier::ext_equal]
pub struct RingView {
    /// The bytes received and not yet taken, oldest first.
    pub unread: Seq<u8>,
    /// The most bytes that can wait.
    pub capacity: int,
    /// How many bytes were lost because the buffer was full.
    pub overflow_total: u64,
    /// When bytes last came in.
    pub last_write: u128,
    /// How many writes that were not empty came in, modulo 2^64.
    pub revision: u64,
    /// How many bytes came in so far, at most `u64::MAX`.
    pub position: u64,
}

/// The capacity of a buffer that is made for `n` bytes: at least one, at most `MAX_BUFFER_SIZE`.
pub open spec fn held(n: usize) -> int {
    if n < 1 {
        1
    } else if n > MAX_BUFFER_SIZE {
        MAX_BUFFER_SIZE as int
    } else {
        n as int
    }
}

/// A buffer that has just been made.
pub open spec fn empty_ring(capacity: usize, now: u128) -> RingView {
    RingView {
        unread: seq![],
        capacity: held(capacity),
        overflow_total: 0,
        last_write: now,
        revision: 0,
        position: 0,
    }
}

/// The last `n` elements of a sequence, or all of it.
pub open spec fn last_of(s: Seq<u8>, n: int) -> Seq<u8> {
    if s.len() <= n {
        s
    } else {
        s.skip(s.len() - n)
    }
}

/// The first `n` elements of a sequence, or all of it.
pub open spec fn first_of(s: Seq<u8>, n: int) -> Seq<u8> {
    if s.len() <= n {
        s
    } else {
        s.take(n)
    }
}

/// How many bytes a write pushes out.
pub open spec fn lost(v: RingView, data: Seq<u8>) -> int {
    if v.unread.len() + data.len() <= v.capacity {
        0
    } else {
        v.unread.len() + data.len() - v.capacity
    }
}

/// A buffer after a write: the newest bytes stay, the lost ones are counted.
pub open spec fn pushed(v: RingView, data: Seq<u8>, now: u128) -> RingView {
    if data.len() == 0 {
        v
    } else {
        RingView {
            unread: last_of(v.unread + data, v.capacity),
            capacity: v.capacity,
            overflow_total: (v.overflow_total + lost(v, data)) as u64,
            last_write: now,
            revision: if v.revision == u64::MAX {
                0
            } else {
                (v.revision + 1) as u64
            },
            position: if v.position + data.len() > u64::MAX {
                u64::MAX
            } else {
                (v.position + data.len()) as u64
            },
        }
    }
}

/// A buffer after its first `n` bytes were taken; nothing else changes.
pub open spec fn dropped(v: RingView, n: int) -> RingView {
    RingView {
        unread: if v.unread.len() <= n {
            seq![]
        } else {
            v.unread.skip(n)
        },
        ..v
    }
}

/// The offset of the first unread byte that was not received before a position.
pub open spec fn offset_of(v: RingView, min_position: Option<u64>) -> int {
    match min_position {
        None => 0,
        Some(p) => {
            let start = v.position - v.unread.len();
            if p <= start {
                0
            } else if p - start <= v.unread.len() {
                p - start
            } else {
                v.unread.len() as int
            }
        },
    }
}

/// Where a search finds a pattern among the bytes from an offset on.
pub open spec fn found(unread: Seq<u8>, pattern: Seq<u8>, from: int) -> Option<int> {
    if pattern.len() > MAX_PATTERN_SIZE {
        None
    } else {
        search::first_occurrence(unread, pattern, from)
    }
}

/// Where a search finds a pattern among the visible bytes from an offset on: its first byte, and
/// the place after its last.
pub open spec fn found_visible(unread: Seq<u8>, pattern: Seq<u8>, from: int) -> Option<(int, int)> {
    if pattern.len() > MAX_PATTERN_SIZE {
        None
    } else {
        ansi::first_visible(unread, pattern, from)
    }
}

/// A buffer after a search: if the pattern was found and was to be taken, the bytes up to its end
/// are gone.
pub open spec fn searched(
    v: RingView,
    pattern: Seq<u8>,
    consume: bool,
    min_position: Option<u64>,
) -> RingView {
    match found(v.unread, pattern, offset_of(v, min_position)) {
        Some(p) if consume => RingView { unread: v.unread.skip(p + pattern.len()), ..v },
        _ => v,
    }
}

/// A buffer after a search that skips control sequences.
pub open spec fn searched_visible(
    v: RingView,
    pattern: Seq<u8>,
    consume: bool,
    min_position: Option<u64>,
) -> RingView {
    match found_visible(v.unread, pattern, offset_of(v, min_position)) {
        Some((_, end)) if consume => RingView { unread: v.unread.skip(end), ..v },
        _ => v,
    }
}

/// A bounded ring buffer.
#[derive(Debug)]
pub struct RingBuf {
    data: Vec<u8>,
    head: usize,
    len: usize,
    capacity: usize,
    overflow_total: u64,
    last_write: u128,
    write_revision: u64,
    write_position: u64,
}

impl View for RingBuf {
    type V = RingView;

    closed spec fn view(&self) -> RingView {
        RingView {
            unread: Seq::new(self.len as nat, |i: int| self.data@[self.slot(i)]),
            capacity: self.capacity as int,
            overflow_total: self.overflow_total,
            last_write: self.last_write,
            revision: self.write_revision,
            position: self.write_position,
        }
    }
}

impl RingBuf {
    /// Where the unread byte `i` is stored.
    spec fn slot(&self, i: int) -> int {
        let at = self.head - self.len + i;
        if at < 0 {
            at + self.capacity
        } else {
            at
        }
    }

    /// The buffer is valid: between one byte and `MAX_BUFFER_SIZE` fit in, and no more wait than
    /// fit in or have come in.
    pub closed spec fn wf(&self) -> bool {
        &&& self.in_bounds()
        &&& self.len <= self.write_position
    }

    /// What validity means for the contents.
    pub proof fn law_bounded(&self)
        requires
            self.wf(),
        ensures
            1 <= self@.capacity <= MAX_BUFFER_SIZE,
            self@.unread.len() <= self@.capacity,
            self@.unread.len() <= self@.position,
    {
    }

    /// Makes an empty buffer. The capacity is held between one and `MAX_BUFFER_SIZE`.
    pub fn new(capacity: usize, now: u128) -> (r: Self)
        ensures
            r.wf(),
            r@ == empty_ring(capacity, now),
    {
        let capacity: usize = if capacity < 1 {
            1
        } else if capacity > MAX_BUFFER_SIZE {
            MAX_BUFFER_SIZE
        } else {
            capacity
        };
        let r = RingBuf {
            data: vec![0u8; capacity],
            head: 0,
            len: 0,
            capacity,
            overflow_total: 0,
            last_write: now,
            write_revision: 0,
            write_position: 0,
        };
        assert(r@.unread =~= seq![]);
        r
    }

    /// The unread byte at an offset.
    fn byte_at(&self, i: usize) -> (r: u8)
        requires
            self.wf(),
            i < self@.unread.len(),
        ensures
            r == self@.unread[i as int],
    {
        let at: usize = if self.head >= self.len - i {
            self.head - (self.len - i)
        } else {
            self.head + (self.capacity - (self.len - i))
        };
        self.data[at]
    }

    /// The cursors lie within the storage.
    spec fn in_bounds(&self) -> bool {
        &&& 1 <= self.capacity <= MAX_BUFFER_SIZE
        &&& self.data@.len() == self.capacity
        &&& self.head < self.capacity
        &&& self.len <= self.capacity
    }

    /// Appends bytes for which there is room.
    fn write_at_head(&mut self, data: &[u8])
        requires
            old(self).in_bounds(),
            old(self)@.unread.len() + data@.len() <= old(self)@.capacity,
        ensures
            final(self).in_bounds(),
            final(self)@ == (RingView { unread: old(self)@.unread + data@, ..old(self)@ }),
    {
        let mut i: usize = 0;
        let ghost before = self@;
        assert(data@.take(0) =~= seq![]);
        assert(before.unread + data@.take(0) =~= before.unread);
        while i < data.len()
            invariant
                i <= data@.len(),
                self.in_bounds(),
                before.unread.len() + data@.len() <= before.capacity,
                self@ == (RingView { unread: before.unread + data@.take(i as int), ..before }),
            decreases data@.len() - i,
        {
            let ghost step = *self;
            let byte: u8 = data[i];
            assert(step@.unread.len() == step.len);
            assert(step.len < step.capacity);
            self.data.set(self.head, byte);
            self.head = if self.head + 1 == self.capacity {
                0
            } else {
                self.head + 1
            };
            self.len = self.len + 1;
            assert(data@.take(i + 1) =~= data@.take(i as int).push(byte));
            assert forall|k: int| 0 <= k < step.len implies self@.unread[k] == step@.unread[k] by {
                assert(self.slot(k) == step.slot(k));
                assert(step.slot(k) != step.head);
            }
            assert(self@.unread =~= step@.unread.push(byte));
            assert(self@.unread =~= before.unread + data@.take(i + 1));
            i += 1;
        }
        assert(data@.take(data@.len() as int) =~= data@);
    }

    /// Receives bytes at a time. If they do not all fit in, the oldest bytes make room, and what
    /// is lost is counted.
    pub fn push(&mut self, data: &[u8], now: u128)
        requires
            old(self).wf(),
            old(self)@.overflow_total + lost(old(self)@, data@) <= u64::MAX,
        ensures
            final(self).wf(),
            final(self)@ == pushed(old(self)@, data@, now),
    {
        if data.len() == 0 {
            return;
        }
        let n: usize = data.len();
        let ghost before = *self;
        if n > self.capacity {
            let kept = slice_subrange(data, n - self.capacity, n);
            self.overflow_total = self.overflow_total + (self.len as u64 + (n - self.capacity) as u64);
            self.len = 0;
            assert(self@.unread =~= seq![]);
            self.write_at_head(kept);
            assert(self@.unread =~= last_of(before@.unread + data@, before@.capacity));
        } else {
            let room: usize = self.capacity - self.len;
            if n > room {
                let need_drop: usize = n - room;
                self.overflow_total = self.overflow_total + need_drop as u64;
                self.len = self.len - need_drop;
                assert(self@.unread =~= before@.unread.skip(need_drop as int));
            }
            self.write_at_head(data);
            assert(self@.unread =~= last_of(before@.unread + data@, before@.capacity));
        }
        self.last_write = now;
        self.write_revision = self.write_revision.wrapping_add(1);
        self.write_position = self.write_position.saturating_add(n as u64);
        assert(self@.unread =~= last_of(before@.unread + data@, before@.capacity));
    }

    /// Takes the first `n` bytes, or all there are.
    fn take_first(&mut self, n: usize) -> (r: Vec<u8>)
        requires
            old(self).wf(),
        ensures
            final(self).wf(),
            r@ == first_of(old(self)@.unread, n as int),
            final(self)@ == dropped(old(self)@, n as int),
    {
        let k: usize = if n < self.len {
            n
        } else {
            self.len
        };
        let mut out: Vec<u8> = Vec::with_capacity(k);
        let ghost before = *self;
        let mut i: usize = 0;
        while i < k
            invariant
                i <= k <= self.len,
                *self == before,
                self.wf(),
                out@ == self@.unread.take(i as int),
            decreases k - i,
        {
            out.push(self.byte_at(i));
            assert(self@.unread.take(i + 1) =~= self@.unread.take(i as int).push(
                self@.unread[i as int],
            ));
            i += 1;
        }
        self.len = self.len - k;
        assert(self@.unread =~= dropped(before@, n as int).unread);
        assert(out@ =~= first_of(before@.unread, n as int));
        out
    }

    /// Takes all unread bytes. Returns them with the count of lost bytes.
    pub fn take_all(&mut self) -> (r: (Vec<u8>, u64))
        requires
            old(self).wf(),
        ensures
            final(self).wf(),
            r.0@ == old(self)@.unread,
            r.1 == old(self)@.overflow_total,
            final(self)@ == (RingView { unread: seq![], ..old(self)@ }),
    {
        let out = self.take_first(self.len);
        (out, self.overflow_total)
    }

    /// Takes the first `n` unread bytes, or all there are. Returns them with the count of lost
    /// bytes.
    pub fn take_prefix(&mut self, n: usize) -> (r: (Vec<u8>, u64))
        requires
            old(self).wf(),
        ensures
            final(self).wf(),
            r.0@ == first_of(old(self)@.unread, n as int),
            r.1 == old(self)@.overflow_total,
            final(self)@ == dropped(old(self)@, n as int),
    {
        let out = self.take_first(n);
        (out, self.overflow_total)
    }

    /// Drops all unread bytes. They do not count as lost.
    pub fn clear(&mut self)
        requires
            old(self).wf(),
        ensures
            final(self).wf(),
            final(self)@ == (RingView { unread: seq![], ..old(self)@ }),
    {
        self.len = 0;
        assert(self@.unread =~= seq![]);
    }

    /// How many bytes are unread, and how many were lost.
    pub fn stats(&self) -> (r: (usize, u64))
        requires
            self.wf(),
        ensures
            r.0 == self@.unread.len(),
            r.1 == self@.overflow_total,
    {
        (self.len, self.overflow_total)
    }

    /// How many bytes are unread, how many were lost, and the number of the last write.
    pub fn stats_with_revision(&self) -> (r: (usize, u64, u64))
        requires
            self.wf(),
        ensures
            r.0 == self@.unread.len(),
            r.1 == self@.overflow_total,
            r.2 == self@.revision,
    {
        (self.len, self.overflow_total, self.write_revision)
    }

    /// The position of the next byte to come.
    pub fn write_position(&self) -> (r: u64)
        ensures
            r == self@.position,
    {
        self.write_position
    }

    /// How long before `now` bytes last came in.
    pub fn last_write_age(&self, now: u128) -> (r: u128)
        ensures
            r == if now < self@.last_write {
                0
            } else {
                now - self@.last_write
            },
    {
        now.saturating_sub(self.last_write)
    }

    /// The offset of the first unread byte that was not received before a position.
    fn start_offset(&self, min_position: Option<u64>) -> (r: usize)
        requires
            self.wf(),
        ensures
            r == offset_of(self@, min_position),
            r <= self@.unread.len(),
    {
        match min_position {
            None => 0,
            Some(p) => {
                let start: u64 = self.write_position.saturating_sub(self.len as u64);
                let ahead: u64 = p.saturating_sub(start);
                if ahead <= self.len as u64 {
                    ahead as usize
                } else {
                    self.len
                }
            },
        }
    }

    /// Looks for a pattern from an offset on.
    fn find_from_offset(&self, pattern: &[u8], start: usize) -> (r: Option<usize>)
        requires
            self.wf(),
            start <= self@.unread.len(),
        ensures
            match r {
                Some(p) => found(self@.unread, pattern@, start as int) == Some(p as int),
                None => found(self@.unread, pattern@, start as int) is None,
            },
            r matches Some(p) ==> p + pattern@.len() <= self@.unread.len(),
    {
        let m: usize = pattern.len();
        if m == 0 {
            assert(self@.unread.subrange(start as int, start as int) =~= pattern@);
            return Some(start);
        }
        if m > MAX_PATTERN_SIZE || m > self.len - start {
            return None;
        }
        let table = search::failure_table(pattern);
        let ghost unread = self@.unread;
        let mut matched: usize = 0;
        let mut pos: usize = start;
        proof {
            search::lemma_nothing_matched(unread.subrange(start as int, start as int), pattern@);
        }
        while pos < self.len
            invariant
                self.wf(),
                self@.unread == unread,
                unread.len() == self.len,
                m == pattern@.len(),
                0 < m <= MAX_PATTERN_SIZE,
                start <= pos <= self.len,
                matched < m,
                search::table_ok(pattern@, table@, m as int),
                search::longest_end(
                    unread.subrange(start as int, pos as int),
                    pattern@,
                    matched as int,
                ),
                forall|q: int|
                    start <= q && q + m <= pos ==> !#[trigger] search::occurs_at(
                        unread,
                        pattern@,
                        q,
                    ),
            decreases self.len - pos,
        {
            let ghost text = unread.subrange(start as int, pos as int);
            let byte: u8 = self.byte_at(pos);
            assert(search::table_ok(pattern@, table@, matched as int));
            matched = search::advance(pattern, &table, matched, byte, Ghost(text));
            let ghost longer = text.push(byte);
            proof {
                assert(longer =~= unread.subrange(start as int, pos + 1));
                search::lemma_whole_match(longer, pattern@);
                let q = pos + 1 - m;
                if start <= q {
                    assert(longer.subrange(longer.len() - m, longer.len() as int)
                        =~= unread.subrange(q, pos + 1));
                }
            }
            if matched == m {
                let at: usize = pos + 1 - m;
                proof {
                    search::lemma_found(unread, pattern@, start as int, at as int);
                }
                return Some(at);
            }
            assert(!search::ends_with(longer, pattern@, m as int));
            pos += 1;
        }
        proof {
            search::lemma_not_found(unread, pattern@, start as int);
        }
        None
    }

    /// Looks for a pattern among the visible bytes from an offset on.
    #[verifier::rlimit(30)]
    fn find_visible_from_offset(&self, pattern: &[u8], start: usize) -> (r: Option<(usize, usize)>)
        requires
            self.wf(),
            start <= self@.unread.len(),
        ensures
            match r {
                Some(p) => found_visible(self@.unread, pattern@, start as int) == Some(
                    (p.0 as int, p.1 as int),
                ),
                None => found_visible(self@.unread, pattern@, start as int) is None,
            },
            r matches Some(p) ==> p.0 <= p.1 <= self@.unread.len(),
    {
        let m: usize = pattern.len();
        if m == 0 {
            return Some((start, start));
        }
        if m > MAX_PATTERN_SIZE {
            return None;
        }
        let table = search::failure_table(pattern);
        let ghost unread = self@.unread;
        let ghost from = start as int;
        let ghost whole = ansi::visible_positions(unread, from, unread.len() as int);
        let ghost text = ansi::bytes_at(unread, whole);
        let mut state = AnsiState::Ground;
        let mut matched: usize = 0;
        let mut recent: VecDeque<usize> = VecDeque::with_capacity(m);
        let mut pos: usize = 0;
        proof {
            assert(unread.take(0) =~= seq![]);
            search::lemma_nothing_matched(
                ansi::bytes_at(unread, ansi::visible_positions(unread, from, 0)),
                pattern@,
            );
        }
        while pos < self.len
            invariant
                self.wf(),
                self@.unread == unread,
                unread.len() == self.len,
                m == pattern@.len(),
                0 < m <= MAX_PATTERN_SIZE,
                from == start,
                pos <= self.len,
                matched < m,
                whole == ansi::visible_positions(unread, from, unread.len() as int),
                text == ansi::bytes_at(unread, whole),
                state == ansi::state_after(unread.take(pos as int)),
                search::table_ok(pattern@, table@, m as int),
                ({
                    let seen = ansi::visible_positions(unread, from, pos as int);
                    &&& search::longest_end(
                        ansi::bytes_at(unread, seen),
                        pattern@,
                        matched as int,
                    )
                    &&& recent@.len() == if seen.len() < m {
                        seen.len() as int
                    } else {
                        m as int
                    }
                    &&& forall|i: int|
                        0 <= i < recent@.len() ==> #[trigger] recent@[i] as int == seen[seen.len()
                            - recent@.len() + i]
                    &&& forall|q: int|
                        0 <= q && q + m <= seen.len() ==> !#[trigger] search::occurs_at(
                            text,
                            pattern@,
                            q,
                        )
                }),
            decreases self.len - pos,
        {
            let ghost seen = ansi::visible_positions(unread, from, pos as int);
            let byte: u8 = self.byte_at(pos);
            let shown = state.step(byte);
            proof {
                assert(unread.take(pos + 1).drop_last() =~= unread.take(pos as int));
            }
            if shown && pos >= start {
                let ghost before = ansi::bytes_at(unread, seen);
                let ghost seen_now = seen.push(pos as int);
                let ghost longer = before.push(byte);
                let ghost recent_before = recent@;
                recent.push_back(pos);
                if recent.len() > m {
                    let _ = recent.pop_front();
                }
                assert(search::table_ok(pattern@, table@, matched as int));
                matched = search::advance(pattern, &table, matched, byte, Ghost(before));
                proof {
                    assert(seen_now == ansi::visible_positions(unread, from, pos + 1));
                    assert(longer =~= ansi::bytes_at(unread, seen_now));
                    ansi::lemma_positions_prefix(unread, from, pos + 1, unread.len() as int);
                    assert(seen_now == whole.take(seen_now.len() as int));
                    search::lemma_whole_match(longer, pattern@);
                    let q = seen_now.len() - m;
                    if 0 <= q {
                        assert(longer.subrange(q, q + m) =~= text.subrange(q, q + m));
                    }
                }
                if matched == m {
                    proof {
                        search::lemma_found(text, pattern@, 0, seen_now.len() - m);
                        ansi::law_visible_positions(unread, from, pos + 1);
                        assert(whole[seen_now.len() - m] == seen_now[seen_now.len() - m]);
                        assert(whole[seen_now.len() - 1] == seen_now[seen_now.len() - 1]);
                    }
                    return Some((recent[0], pos + 1));
                }
                assert(!search::ends_with(longer, pattern@, m as int));
            }
            pos += 1;
        }
        proof {
            assert(unread.take(unread.len() as int) =~= unread);
            search::lemma_not_found(text, pattern@, 0);
        }
        None
    }

    /// Looks for a pattern among the unread bytes: the offset of its first byte. A pattern may
    /// have come in pieces. An empty pattern is found at once.
    pub fn find(&self, pattern: &[u8]) -> (r: Option<usize>)
        requires
            self.wf(),
        ensures
            match r {
                Some(p) => found(self@.unread, pattern@, 0) == Some(p as int),
                None => found(self@.unread, pattern@, 0) is None,
            },
    {
        self.find_from_offset(pattern, 0)
    }

    /// Looks for a pattern among the unread bytes; if it is found and `consume` is set, takes all
    /// bytes up to its end. Returns the offset, the bytes taken and the count of lost bytes.
    pub fn find_and_take(&mut self, pattern: &[u8], consume: bool) -> (r: (
        Option<usize>,
        Vec<u8>,
        u64,
    ))
        requires
            old(self).wf(),
        ensures
            final(self).wf(),
            found_and_taken(*old(self), pattern@, consume, None, r, *final(self)),
    {
        self.find_and_take_from(pattern, consume, None)
    }

    /// As `find_and_take`, but the first byte of the pattern must not have been received before a
    /// position. What is taken still starts at the oldest unread byte.
    pub fn find_and_take_from(
        &mut self,
        pattern: &[u8],
        consume: bool,
        min_position: Option<u64>,
    ) -> (r: (Option<usize>, Vec<u8>, u64))
        requires
            old(self).wf(),
        ensures
            final(self).wf(),
            found_and_taken(*old(self), pattern@, consume, min_position, r, *final(self)),
    {
        let start: usize = self.start_offset(min_position);
        let pos = self.find_from_offset(pattern, start);
        let ghost before = *self;
        let mut out: Vec<u8> = Vec::new();
        if consume {
            match pos {
                Some(p) => {
                    out = self.take_first(p + pattern.len());
                    assert(first_of(before@.unread, p + pattern@.len()) =~= before@.unread.take(
                        p + pattern@.len(),
                    ));
                    assert(dropped(before@, p + pattern@.len()).unread =~= before@.unread.skip(
                        p + pattern@.len(),
                    ));
                },
                None => {},
            }
        }
        (pos, out, self.overflow_total)
    }

    /// As `find_and_take_from`, but control sequences are skipped: the pattern is looked for among
    /// the visible bytes. What is taken holds the control sequences unchanged.
    pub fn find_and_take_ignoring_ansi(
        &mut self,
        pattern: &[u8],
        consume: bool,
        min_position: Option<u64>,
    ) -> (r: (Option<usize>, Vec<u8>, u64))
        requires
            old(self).wf(),
        ensures
            final(self).wf(),
            found_visible_and_taken(*old(self), pattern@, consume, min_position, r, *final(self)),
    {
        let start: usize = self.start_offset(min_position);
        let matched = self.find_visible_from_offset(pattern, start);
        let ghost before = *self;
        let mut pos: Option<usize> = None;
        let mut out: Vec<u8> = Vec::new();
        match matched {
            Some(p) => {
                pos = Some(p.0);
                if consume {
                    out = self.take_first(p.1);
                    assert(first_of(before@.unread, p.1 as int) =~= before@.unread.take(
                        p.1 as int,
                    ));
                    assert(dropped(before@, p.1 as int).unread =~= before@.unread.skip(
                        p.1 as int,
                    ));
                }
            },
            None => {},
        }
        (pos, out, self.overflow_total)
    }
}

/// What a search that may take does: it finds the first occurrence, and takes up to its end.
pub open spec fn found_and_taken(
    before: RingBuf,
    pattern: Seq<u8>,
    consume: bool,
    min_position: Option<u64>,
    r: (Option<usize>, Vec<u8>, u64),
    after: RingBuf,
) -> bool {
    let unread = before@.unread;
    &&& r.2 == before@.overflow_total
    &&& after@ == searched(before@, pattern, consume, min_position)
    &&& match found(unread, pattern, offset_of(before@, min_position)) {
        Some(p) => {
            &&& r.0 matches Some(at) && at == p
            &&& r.1@ == if consume {
                unread.take(p + pattern.len())
            } else {
                seq![]
            }
        },
        None => r.0 is None && r.1@ == Seq::<u8>::empty(),
    }
}

/// What a search that skips control sequences and may take does.
pub open spec fn found_visible_and_taken(
    before: RingBuf,
    pattern: Seq<u8>,
    consume: bool,
    min_position: Option<u64>,
    r: (Option<usize>, Vec<u8>, u64),
    after: RingBuf,
) -> bool {
    let unread = before@.unread;
    &&& r.2 == before@.overflow_total
    &&& after@ == searched_visible(before@, pattern, consume, min_position)
    &&& match found_visible(unread, pattern, offset_of(before@, min_position)) {
        Some((p, end)) => {
            &&& r.0 matches Some(at) && at == p
            &&& r.1@ == if consume {
                unread.take(end)
            } else {
                seq![]
            }
        },
        None => r.0 is None && r.1@ == Seq::<u8>::empty(),
    }
}

/// A call that can change a buffer.
pub enum RingCall {
    /// `push`.
    Push { data: Seq<u8>, now: u128 },
    /// `take_all`, or `clear`.
    Empty,
    /// `take_prefix`.
    Prefix { n: usize },
    /// `find_and_take_from`; without a position, `find_and_take`.
    Search { pattern: Seq<u8>, consume: bool, min_position: Option<u64> },
    /// `find_and_take_ignoring_ansi`.
    SearchVisible { pattern: Seq<u8>, consume: bool, min_position: Option<u64> },
}

/// A buffer after a call.
pub open spec fn called(v: RingView, call: RingCall) -> RingView {
    match call {
        RingCall::Push { data, now } => pushed(v, data, now),
        RingCall::Empty => RingView { unread: seq![], ..v },
        RingCall::Prefix { n } => dropped(v, n as int),
        RingCall::Search { pattern, consume, min_position } => searched(
            v,
            pattern,
            consume,
            min_position,
        ),
        RingCall::SearchVisible { pattern, consume, min_position } => searched_visible(
            v,
            pattern,
            consume,
            min_position,
        ),
    }
}

/// A buffer after several calls.
pub open spec fn called_all(v: RingView, calls: Seq<RingCall>) -> RingView
    decreases calls.len(),
{
    if calls.len() == 0 {
        v
    } else {
        called(called_all(v, calls.drop_last()), calls.last())
    }
}

/// A call keeps the bounds.
proof fn lemma_call_keeps_bounds(v: RingView, call: RingCall)
    requires
        1 <= v.capacity <= MAX_BUFFER_SIZE,
        v.unread.len() <= v.capacity,
        v.unread.len() <= v.position,
    ensures
        ({
            let w = called(v, call);
            &&& w.capacity == v.capacity
            &&& w.unread.len() <= w.capacity
            &&& w.unread.len() <= w.position
        }),
{
    match call {
        RingCall::Search { pattern, consume, min_position } => {
            search::law_first_occurrence(v.unread, pattern, offset_of(v, min_position));
        },
        RingCall::SearchVisible { pattern, consume, min_position } => {
            if pattern.len() > 0 {
                ansi::law_visible_match(v.unread, pattern, offset_of(v, min_position));
            }
        },
        _ => {},
    }
}

/// Whatever is done with a buffer, from the moment that it is made it never holds more than its
/// capacity, which is the one asked for, held between one and `MAX_BUFFER_SIZE`.
pub proof fn law_bounded_for_good(capacity: usize, begun: u128, calls: Seq<RingCall>)
    ensures
        ({
            let v = called_all(empty_ring(capacity, begun), calls);
            &&& v.capacity == held(capacity)
            &&& 1 <= v.capacity <= MAX_BUFFER_SIZE
            &&& v.unread.len() <= held(capacity)
            &&& v.unread.len() <= v.position
        }),
    decreases calls.len(),
{
    if calls.len() > 0 {
        law_bounded_for_good(capacity, begun, calls.drop_last());
        lemma_call_keeps_bounds(
            called_all(empty_ring(capacity, begun), calls.drop_last()),
            calls.last(),
        );
    }
}

/// A buffer that has just been made has room for its whole capacity: so many bytes are kept, and
/// none is lost.
pub proof fn law_fresh_buffer_holds_its_capacity(
    capacity: usize,
    begun: u128,
    data: Seq<u8>,
    now: u128,
)
    requires
        data.len() <= held(capacity),
    ensures
        pushed(empty_ring(capacity, begun), data, now).unread == data,
        pushed(empty_ring(capacity, begun), data, now).overflow_total == 0,
{
    assert(pushed(empty_ring(capacity, begun), data, now).unread =~= data);
}

/// Every byte is accounted for: what came in is unread or lost.
pub proof fn law_push_accounts_for_every_byte(v: RingView, data: Seq<u8>, now: u128)
    requires
        1 <= v.capacity,
        v.unread.len() <= v.capacity,
        v.overflow_total + lost(v, data) <= u64::MAX,
    ensures
        pushed(v, data, now).unread.len() + pushed(v, data, now).overflow_total == v.unread.len()
            + v.overflow_total + data.len(),
        pushed(v, data, now).unread.len() <= v.capacity,
{
}

/// It does not matter in how many pieces bytes come in: the same bytes stay, and the same number
/// is lost.
pub proof fn law_push_in_pieces(v: RingView, a: Seq<u8>, b: Seq<u8>, t: u128, u: u128)
    requires
        1 <= v.capacity,
        v.unread.len() <= v.capacity,
        v.overflow_total + lost(v, a + b) <= u64::MAX,
    ensures
        ({
            let pieces = pushed(pushed(v, a, t), b, u);
            let whole = pushed(v, a + b, u);
            &&& pieces.unread == whole.unread
            &&& pieces.overflow_total == whole.overflow_total
            &&& pieces.position == whole.position
            &&& pieces.capacity == whole.capacity
        }),
{
    let middle = pushed(v, a, t);
    let pieces = pushed(middle, b, u);
    let whole = pushed(v, a + b, u);
    if a.len() == 0 {
        assert(a + b =~= b);
    } else if b.len() == 0 {
        assert(a + b =~= a);
    } else {
        assert(middle.overflow_total == v.overflow_total + lost(v, a));
        assert(v.unread + (a + b) =~= (v.unread + a) + b);
        assert(pieces.unread =~= whole.unread);
    }
}

/// What is taken and what stays make up what was there.
pub proof fn law_take_splits(v: RingView, n: int)
    requires
        0 <= n,
    ensures
        first_of(v.unread, n) + dropped(v, n).unread == v.unread,
{
    assert(first_of(v.unread, n) + dropped(v, n).unread =~= v.unread);
}

/// A search from a watermark, a position noted earlier, sees exactly the bytes received since: no
/// earlier byte can match, not even as the start of a match.
pub proof fn law_watermark(v: RingView, data: Seq<u8>, now: u128, pattern: Seq<u8>)
    requires
        1 <= v.capacity,
        v.unread.len() <= v.capacity,
        v.unread.len() <= v.position,
        v.position + data.len() <= u64::MAX,
    ensures
        ({
            let after = pushed(v, data, now);
            let new = last_of(data, v.capacity);
            let from = offset_of(after, Some(v.position));
            &&& from == after.unread.len() - new.len()
            &&& after.unread.skip(from) == new
            &&& found(after.unread, pattern, from) == match found(new, pattern, 0) {
                Some(p) => Some(from + p),
                None => None,
            }
        }),
{
    let after = pushed(v, data, now);
    let new = last_of(data, v.capacity);
    let from = offset_of(after, Some(v.position));
    assert(after.unread.skip(from) =~= new);
    search::lemma_shifted(after.unread, pattern, from, 0);
}

/// With control sequences skipped, too, a search from a watermark sees exactly the bytes received
/// since. Of these it sees the visible ones, where what is visible is settled from the oldest
/// unread byte on, so that a control sequence that began before stays invisible to its end. There
/// is a match exactly if those bytes hold the pattern, and it is where they first do.
pub proof fn law_watermark_visible(v: RingView, data: Seq<u8>, now: u128, pattern: Seq<u8>)
    requires
        1 <= v.capacity,
        v.unread.len() <= v.capacity,
        v.unread.len() <= v.position,
        v.position + data.len() <= u64::MAX,
    ensures
        ({
            let unread = pushed(v, data, now).unread;
            let from = unread.len() - last_of(data, v.capacity).len();
            let seen = ansi::visible_positions(unread, from, unread.len() as int);
            let text = ansi::bytes_at(unread, seen);
            let result = found_visible(
                unread,
                pattern,
                offset_of(pushed(v, data, now), Some(v.position)),
            );
            &&& (result is Some) == (pattern.len() <= MAX_PATTERN_SIZE && exists|q: int| #[trigger]
                search::occurs_at(text, pattern, q))
            &&& pattern.len() > 0 ==> result == match found(text, pattern, 0) {
                Some(q) => Some((seen[q], seen[q + pattern.len() - 1] + 1)),
                None => None,
            }
            &&& result matches Some((start, end)) ==> {
                &&& from <= start <= end <= unread.len()
                &&& pattern.len() > 0 ==> start < end
            }
        }),
{
    let after = pushed(v, data, now);
    let unread = after.unread;
    let from = offset_of(after, Some(v.position));
    law_watermark(v, data, now, pattern);
    let seen = ansi::visible_positions(unread, from, unread.len() as int);
    let text = ansi::bytes_at(unread, seen);
    search::law_first_occurrence(text, pattern, 0);
    if pattern.len() > 0 {
        ansi::law_visible_match(unread, pattern, from);
    } else {
        assert(text.subrange(0, 0) =~= pattern);
        assert(search::occurs_at(text, pattern, 0));
    }
}

/// A buffer that was just made is empty, has counted nothing, and holds as many bytes as was asked
/// for: at least one, at most 16 MiB.
pub proof fn law_new_buffer(capacity: usize, now: u128)
    ensures
        ({
            let v = empty_ring(capacity, now);
            &&& v.unread.len() == 0
            &&& v.overflow_total == 0
            &&& v.revision == 0
            &&& v.position == 0
            &&& v.last_write == now
            &&& 1 <= capacity <= 16_777_216 ==> v.capacity == capacity
            &&& capacity == 0 ==> v.capacity == 1
            &&& capacity > 16_777_216 ==> v.capacity == 16_777_216
        }),
{
}

/// After a write the newest bytes are unread, in the order in which they came, as many as fit in;
/// as many as do not are counted as lost. The write is numbered and timed. An empty write does
/// nothing.
pub proof fn law_push_keeps_the_newest(v: RingView, data: Seq<u8>, now: u128)
    requires
        1 <= v.capacity,
        v.unread.len() <= v.capacity,
        v.overflow_total + v.unread.len() + data.len() <= u64::MAX,
    ensures
        data.len() == 0 ==> pushed(v, data, now) == v,
        data.len() > 0 ==> {
            let w = pushed(v, data, now);
            let total = v.unread.len() + data.len();
            &&& total <= v.capacity ==> w.unread.len() == total
            &&& total > v.capacity ==> w.unread.len() == v.capacity
            &&& forall|i: int|
                0 <= i < w.unread.len() ==> #[trigger] w.unread[i] == (v.unread + data)[total
                    - w.unread.len() + i]
            &&& w.overflow_total == v.overflow_total + (total - w.unread.len())
            &&& w.capacity == v.capacity
            &&& w.last_write == now
            &&& v.revision < u64::MAX ==> w.revision == v.revision + 1
            &&& v.revision == u64::MAX ==> w.revision == 0
            &&& v.position + data.len() <= u64::MAX ==> w.position == v.position + data.len()
            &&& v.position + data.len() > u64::MAX ==> w.position == u64::MAX
        },
{
}

/// A call that takes `n` bytes gives the oldest ones, in order, and leaves the others; it changes
/// nothing else.
pub proof fn law_take_gives_the_oldest(v: RingView, n: int)
    requires
        0 <= n,
    ensures
        ({
            let taken = first_of(v.unread, n);
            let w = dropped(v, n);
            &&& n <= v.unread.len() ==> taken.len() == n
            &&& n > v.unread.len() ==> taken.len() == v.unread.len()
            &&& w.unread.len() == v.unread.len() - taken.len()
            &&& forall|i: int| 0 <= i < taken.len() ==> #[trigger] taken[i] == v.unread[i]
            &&& forall|i: int|
                0 <= i < w.unread.len() ==> #[trigger] w.unread[i] == v.unread[taken.len() + i]
            &&& w == (RingView { unread: w.unread, ..v })
        }),
{
}

/// The bytes before the offset of a position were received before it, those from the offset on were
/// not. Without a position all unread bytes count.
pub proof fn law_offset_parts_old_from_new(v: RingView, p: u64)
    requires
        v.unread.len() <= v.position,
    ensures
        offset_of(v, None) == 0,
        ({
            let o = offset_of(v, Some(p));
            &&& 0 <= o <= v.unread.len()
            &&& forall|i: int| 0 <= i < o ==> #[trigger] (v.position - v.unread.len() + i) < p
            &&& forall|i: int|
                o <= i < v.unread.len() ==> #[trigger] (v.position - v.unread.len() + i) >= p
        }),
{
}

/// What a search finds is the pattern, byte for byte, and no place where it stands is passed over,
/// for patterns of up to 64 KiB.
pub proof fn law_search_is_exact(unread: Seq<u8>, pattern: Seq<u8>, from: int, q: int)
    requires
        0 <= from,
    ensures
        found(unread, pattern, from) matches Some(p) ==> {
            &&& from <= p
            &&& p + pattern.len() <= unread.len()
            &&& pattern.len() <= 65_536
            &&& forall|i: int| 0 <= i < pattern.len() ==> unread[p + i] == #[trigger] pattern[i]
        },
        from <= q && q + pattern.len() <= unread.len() && pattern.len() <= 65_536 && (forall|i: int|
            0 <= i < pattern.len() ==> unread[q + i] == #[trigger] pattern[i]) ==> (found(
            unread,
            pattern,
            from,
        ) matches Some(p) && p <= q),
{
    search::law_match_is_real(unread, pattern, from);
    if from <= q && q + pattern.len() <= unread.len() && (forall|i: int|
        0 <= i < pattern.len() ==> unread[q + i] == #[trigger] pattern[i]) {
        search::law_no_match_is_missed(unread, pattern, from, q);
    }
}

/// With control sequences skipped, what a search finds is a run of visible bytes that reads as the
/// pattern, and no such run is passed over, for patterns of up to 64 KiB.
pub proof fn law_visible_search_is_exact(
    unread: Seq<u8>,
    pattern: Seq<u8>,
    from: int,
    at: Seq<int>,
)
    requires
        0 <= from,
        0 < pattern.len() <= 65_536,
    ensures
        found_visible(unread, pattern, from) matches Some((start, end)) ==> exists|run: Seq<int>|
            #[trigger] ansi::reads_as(unread, pattern, from, run) && run[0] == start && run[run.len()
                - 1] + 1 == end,
        ansi::reads_as(unread, pattern, from, at) ==> (found_visible(
            unread,
            pattern,
            from,
        ) matches Some((start, end)) && start <= at[0] && (start == at[0] ==> end == at[at.len() - 1]
            + 1)),
{
    ansi::law_found_run_reads_as_pattern(unread, pattern, from);
    if ansi::reads_as(unread, pattern, from, at) {
        ansi::law_visible_run_is_found(unread, pattern, from, at);
    }
}

/// A search takes bytes only if it found the pattern and was to take them: then all up to the end
/// of the pattern, the oldest first, and no more. Else it changes nothing.
pub proof fn law_search_takes_up_to_the_end(
    v: RingView,
    pattern: Seq<u8>,
    consume: bool,
    min_position: Option<u64>,
)
    requires
        v.unread.len() <= v.position,
    ensures
        ({
            let w = searched(v, pattern, consume, min_position);
            match found(v.unread, pattern, offset_of(v, min_position)) {
                Some(p) => if consume {
                    &&& w == (RingView { unread: w.unread, ..v })
                    &&& w.unread.len() == v.unread.len() - p - pattern.len()
                    &&& forall|i: int|
                        0 <= i < w.unread.len() ==> #[trigger] w.unread[i] == v.unread[p
                            + pattern.len() + i]
                } else {
                    w == v
                },
                None => w == v,
            }
        }),
        ({
            let w = searched_visible(v, pattern, consume, min_position);
            match found_visible(v.unread, pattern, offset_of(v, min_position)) {
                Some((_, end)) => if consume {
                    &&& w == (RingView { unread: w.unread, ..v })
                    &&& w.unread.len() == v.unread.len() - end
                    &&& forall|i: int|
                        0 <= i < w.unread.len() ==> #[trigger] w.unread[i] == v.unread[end + i]
                } else {
                    w == v
                },
                None => w == v,
            }
        }),
{
    let from = offset_of(v, min_position);
    search::law_match_is_real(v.unread, pattern, from);
    if pattern.len() > 0 {
        ansi::law_visible_match(v.unread, pattern, from);
    }
}

/// What a search reports and what it takes fit together: the place that it reports, the bytes up to
/// the end of the pattern if they were to be taken, and else none. An empty pattern is found at
/// once.
pub proof fn law_search_reports_what_it_takes(
    before: RingBuf,
    pattern: Seq<u8>,
    consume: bool,
    min_position: Option<u64>,
    r: (Option<usize>, Vec<u8>, u64),
    after: RingBuf,
)
    requires
        before.wf(),
        found_and_taken(before, pattern, consume, min_position, r, after),
    ensures
        r.2 == before@.overflow_total,
        consume && r.0 is Some ==> r.1@.len() == r.0->0 + pattern.len(),
        !consume || r.0 is None ==> r.1@.len() == 0 && after@ == before@,
        r.1@ + after@.unread == before@.unread,
        forall|i: int|
            r.0 is Some && 0 <= i < pattern.len() ==> before@.unread[r.0->0 + i]
                == #[trigger] pattern[i],
        pattern.len() == 0 ==> r.0 is Some,
        min_position is None && pattern.len() == 0 ==> r.0 == Some(0usize),
{
    before.law_bounded();
    let from = offset_of(before@, min_position);
    search::law_match_is_real(before@.unread, pattern, from);
    if pattern.len() == 0 {
        assert(before@.unread.subrange(from, from) =~= pattern);
    }
    assert(r.1@ + after@.unread =~= before@.unread);
}

/// The same holds where control sequences are skipped: what is taken holds them unchanged.
pub proof fn law_visible_search_reports_what_it_takes(
    before: RingBuf,
    pattern: Seq<u8>,
    consume: bool,
    min_position: Option<u64>,
    r: (Option<usize>, Vec<u8>, u64),
    after: RingBuf,
)
    requires
        before.wf(),
        found_visible_and_taken(before, pattern, consume, min_position, r, after),
    ensures
        r.2 == before@.overflow_total,
        !consume || r.0 is None ==> r.1@.len() == 0 && after@ == before@,
        r.1@ + after@.unread == before@.unread,
        consume && r.0 is Some && pattern.len() > 0 ==> r.0->0 + pattern.len() <= r.1@.len()
            && before@.unread[r.0->0 as int] == pattern[0] && r.1@.last() == pattern.last(),
        pattern.len() == 0 ==> r.0 is Some,
        min_position is None && pattern.len() == 0 ==> r.0 == Some(0usize) && r.1@.len() == 0,
{
    before.law_bounded();
    let unread = before@.unread;
    let from = offset_of(before@, min_position);
    if pattern.len() > 0 {
        ansi::law_visible_match(unread, pattern, from);
        ansi::law_found_run_reads_as_pattern(unread, pattern, from);
        if let Some((start, end)) = found_visible(unread, pattern, from) {
            let at = choose|at: Seq<int>| #[trigger]
                ansi::reads_as(unread, pattern, from, at) && at[0] == start && at[at.len() - 1] + 1
                    == end;
            lemma_increasing(at, (at.len() - 1) as int);
        }
    }
    assert(r.1@ + after@.unread =~= unread);
}

pub(crate) proof fn lemma_increasing(at: Seq<int>, k: int)
    requires
        0 <= k < at.len(),
        forall|i: int, j: int| 0 <= i < j < at.len() ==> at[i] < at[j],
    ensures
        at[0] + k <= at[k],
    decreases k,
{
    if k > 0 {
        lemma_increasing(at, k - 1);
        assert(at[k - 1] < at[k]);
    }
}

}
