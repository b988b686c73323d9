//! Expecting: waiting until a pattern shows up among the received bytes.
//!
//! An expectation may write something first, and may write a reply as soon as the pattern shows
//! up. If the time is up first, nothing is taken and no reply is written.

use vstd::prelude::*;

use crate::ansi;
use crate::io;
use crate::io::EventView;
use crate::io::Io;
use crate::io::IoEvent;
use crate::io::Next;
use crate::io::NextView;
use crate::io::WriteOp;
use crate::io::WriteView;
use crate::manager;
use crate::manager::ExpectOutcome;
use crate::manager::ExpectOutcomeView;
use crate::manager::ExpectReason;
use crate::manager::MatchScope;
use crate::manager::PortView;
use crate::manager::Ports;
use crate::manager::SerialManager;
use crate::ring;
use crate::ring::RingView;
use crate::search;

verus! {

/// Where an expectation stands.
#[derive(Debug, Clone, Copy, PartialEq, Eq, Structural)]
pub enum ExpectPhase {
    /// It writes what is to be written first.
    Sending,
    /// It waits for the pattern.
    Waiting,
    /// The pattern was found; it writes the reply.
    Replying,
}

/// An expectation, as values.
#[verifier::ext_equal]
pub struct ExpectView {
    /// The port.
    pub port: Seq<char>,
    /// What is expected.
    pub pattern: Seq<u8>,
    /// How long to wait at most, in milliseconds.
    pub timeout_ms: u64,
    /// Whether the bytes up to the end of the pattern are taken.
    pub consume: bool,
    /// Whether control sequences are skipped.
    pub ignore_ansi: bool,
    /// No earlier byte may begin a match.
    pub min_position: Option<u64>,
    /// What is written when the pattern is found.
    pub reply: Option<Seq<u8>>,
    /// Where it stands.
    pub phase: ExpectPhase,
    /// The write that goes on, or the last one.
    pub write: WriteView,
    /// How many bytes were written.
    pub written: usize,
    /// When the waiting began.
    pub start: u128,
    /// The bytes that were taken.
    pub taken: Seq<u8>,
    /// The count of lost bytes when the pattern was found.
    pub overflow_total: u64,
}

/// An expectation that goes on.
#[derive(Debug)]
pub struct ExpectOp {
    port: String,
    pattern: Vec<u8>,
    timeout_ms: u64,
    consume: bool,
    ignore_ansi: bool,
    min_position: Option<u64>,
    reply: Option<Vec<u8>>,
    phase: ExpectPhase,
    write: WriteOp,
    written: usize,
    start: u128,
    taken: Vec<u8>,
    overflow_total: u64,
}

/// Bytes, or none, as values.
pub open spec fn bytes_view(b: Option<Vec<u8>>) -> Option<Seq<u8>> {
    match b {
        Some(v) => Some(v@),
        None => None,
    }
}

impl View for ExpectOp {
    type V = ExpectView;

    closed spec fn view(&self) -> ExpectView {
        ExpectView {
            port: self.port@,
            pattern: self.pattern@,
            timeout_ms: self.timeout_ms,
            consume: self.consume,
            ignore_ansi: self.ignore_ansi,
            min_position: self.min_position,
            reply: bytes_view(self.reply),
            phase: self.phase,
            write: self.write@,
            written: self.written,
            start: self.start,
            taken: self.taken@,
            overflow_total: self.overflow_total,
        }
    }
}

impl ExpectOp {
    /// The state is valid.
    pub closed spec fn wf(&self) -> bool {
        self.write.wf()
    }

    /// What is still to be written.
    pub fn rest(&self) -> (r: &[u8])
        requires
            self.wf(),
        ensures
            r@ == self@.write.data.skip(self@.write.written),
    {
        self.write.rest()
    }
}

/// Where the pattern ends among the unread bytes, if it is there.
pub open spec fn match_end(buffer: RingView, op: ExpectView) -> Option<int> {
    let from = ring::offset_of(buffer, op.min_position);
    if op.ignore_ansi {
        match ring::found_visible(buffer.unread, op.pattern, from) {
            Some((_, end)) => Some(end),
            None => None,
        }
    } else {
        match ring::found(buffer.unread, op.pattern, from) {
            Some(p) => Some(p + op.pattern.len()),
            None => None,
        }
    }
}

/// A port after the pattern was found.
pub open spec fn after_match(p: PortView, op: ExpectView, end: int) -> PortView {
    if op.consume {
        PortView { buffer: RingView { unread: p.buffer.unread.skip(end), ..p.buffer }, ..p }
    } else {
        p
    }
}

/// What is taken when the pattern is found.
pub open spec fn match_taken(p: PortView, op: ExpectView, end: int) -> Seq<u8> {
    if op.consume {
        p.buffer.unread.take(end)
    } else {
        seq![]
    }
}

/// What an expectation gives whose pattern was found.
pub open spec fn matched_result(p: PortView, op: ExpectView) -> ExpectOutcomeView {
    ExpectOutcomeView {
        matched: true,
        data: op.taken,
        written: op.written,
        reason: ExpectReason::Matched,
        overflow_delta: if op.consume {
            manager::lost_since(op.overflow_total, p.last_overflow)
        } else {
            0
        },
        overflow_total: op.overflow_total,
        buffered: p.buffer.unread.len() as int,
    }
}

/// A port after a match was reported: if bytes were taken, the lost bytes count as reported.
pub open spec fn after_report(p: PortView, op: ExpectView) -> PortView {
    if op.consume {
        PortView { last_overflow: op.overflow_total, ..p }
    } else {
        p
    }
}

/// What an expectation gives when the time is up. One that would have taken bytes shows the
/// losses, which still count as not reported.
pub open spec fn timeout_result(p: PortView, op: ExpectView) -> ExpectOutcomeView {
    ExpectOutcomeView {
        matched: false,
        data: seq![],
        written: op.written,
        reason: ExpectReason::Timeout,
        overflow_delta: if op.consume {
            manager::lost_since(p.buffer.overflow_total, p.last_overflow)
        } else {
            0
        },
        overflow_total: p.buffer.overflow_total,
        buffered: p.buffer.unread.len() as int,
    }
}

/// The ports, the expectation and how it goes on.
pub struct ExpectStep {
    pub ports: Ports,
    pub op: ExpectView,
    pub next: NextView<ExpectOutcomeView>,
}

/// The end of an expectation whose pattern was found.
pub open spec fn expect_matched(ports: Ports, op: ExpectView) -> ExpectStep {
    if !ports.contains_key(op.port) {
        ExpectStep { ports, op, next: NextView::Fail(manager::not_open(op.port)) }
    } else {
        let p = ports[op.port];
        ExpectStep {
            ports: ports.insert(op.port, after_report(p, op)),
            op,
            next: NextView::Done(matched_result(p, op)),
        }
    }
}

/// A look at the received bytes.
pub open spec fn expect_looks(ports: Ports, op: ExpectView, now: u128) -> ExpectStep {
    if !ports.contains_key(op.port) {
        ExpectStep { ports, op, next: NextView::Fail(manager::not_open(op.port)) }
    } else {
        let p = ports[op.port];
        match match_end(p.buffer, op) {
            Some(end) => {
                let after = ports.insert(op.port, after_match(p, op, end));
                let found = ExpectView {
                    taken: match_taken(p, op, end),
                    overflow_total: p.buffer.overflow_total,
                    ..op
                };
                match op.reply {
                    Some(reply) => {
                        let w = io::write_of(reply);
                        ExpectStep {
                            ports: after,
                            op: ExpectView { phase: ExpectPhase::Replying, write: w, ..found },
                            next: NextView::Do(io::write_asks(w)),
                        }
                    },
                    None => expect_matched(after, found),
                }
            },
            None => if manager::elapsed(op.start, now) >= manager::nanos(op.timeout_ms) {
                ExpectStep { ports, op, next: NextView::Done(timeout_result(p, op)) }
            } else {
                ExpectStep { ports, op, next: NextView::Do(Io::Wait) }
            },
        }
    }
}

/// A step of an expectation.
pub open spec fn expect_stepped(
    ports: Ports,
    op: ExpectView,
    event: EventView,
    now: u128,
) -> ExpectStep {
    let w = io::write_stepped(op.write, event);
    match op.phase {
        ExpectPhase::Waiting => expect_looks(ports, op, now),
        _ => match io::write_next(op.write, event) {
            NextView::Do(io) => ExpectStep {
                ports,
                op: ExpectView { write: w, ..op },
                next: NextView::Do(io),
            },
            NextView::Fail(e) => ExpectStep {
                ports,
                op: ExpectView { write: w, ..op },
                next: NextView::Fail(e),
            },
            NextView::Done(n) => {
                let sent = ExpectView { write: w, written: n, ..op };
                if op.phase == ExpectPhase::Sending {
                    expect_looks(
                        ports,
                        ExpectView { phase: ExpectPhase::Waiting, start: now, ..sent },
                        now,
                    )
                } else {
                    expect_matched(ports, sent)
                }
            },
        },
    }
}

/// An expectation at its beginning. What counts as new is settled here, before anything is
/// written.
pub open spec fn expect_begun(
    buffer: RingView,
    port: Seq<char>,
    data: Option<Seq<u8>>,
    pattern: Seq<u8>,
    reply: Option<Seq<u8>>,
    timeout_ms: u64,
    consume: bool,
    match_scope: MatchScope,
    ignore_ansi: bool,
    now: u128,
) -> ExpectView {
    ExpectView {
        port,
        pattern,
        timeout_ms,
        consume,
        ignore_ansi,
        min_position: match match_scope {
            MatchScope::New => Some(buffer.position),
            MatchScope::Buffer => None,
        },
        reply,
        phase: if data is Some {
            ExpectPhase::Sending
        } else {
            ExpectPhase::Waiting
        },
        write: io::write_of(
            match data {
                Some(d) => d,
                None => seq![],
            },
        ),
        written: 0,
        start: now,
        taken: seq![],
        overflow_total: 0,
    }
}

impl SerialManager {
    fn begin_expect(
        &self,
        port_name: &str,
        data: Option<Vec<u8>>,
        pattern: Vec<u8>,
        reply: Option<Vec<u8>>,
        timeout_ms: u64,
        consume: bool,
        match_scope: MatchScope,
        ignore_ansi: bool,
        now: u128,
    ) -> (r: Result<ExpectOp, String>)
        requires
            self.wf(),
        ensures
            match r {
                Ok(op) => manager::refused(self@, port_name@) is None && op.wf() && op@
                    == expect_begun(
                    self@[port_name@].buffer,
                    port_name@,
                    bytes_view(data),
                    pattern@,
                    bytes_view(reply),
                    timeout_ms,
                    consume,
                    match_scope,
                    ignore_ansi,
                    now,
                ),
                Err(e) => manager::refused(self@, port_name@) == Some(e@),
            },
    {
        match self.check(port_name) {
            Err(e) => {
                return Err(e);
            },
            Ok(_) => {},
        }
        let position: u64 = match self.port(port_name) {
            Some(p) => p.buffer.write_position(),
            None => 0,
        };
        let min_position: Option<u64> = match match_scope {
            MatchScope::New => Some(position),
            MatchScope::Buffer => None,
        };
        let (phase, write) = match data {
            Some(d) => (ExpectPhase::Sending, WriteOp::new(d)),
            None => (ExpectPhase::Waiting, WriteOp::new(Vec::new())),
        };
        let op = ExpectOp {
            port: port_name.to_owned(),
            pattern,
            timeout_ms,
            consume,
            ignore_ansi,
            min_position,
            reply,
            phase,
            write,
            written: 0,
            start: now,
            taken: Vec::new(),
            overflow_total: 0,
        };
        assert(op@.write.data =~= expect_begun(
            self@[port_name@].buffer,
            port_name@,
            bytes_view(data),
            pattern@,
            bytes_view(reply),
            timeout_ms,
            consume,
            match_scope,
            ignore_ansi,
            now,
        ).write.data);
        assert(op@.taken =~= seq![]);
        Ok(op)
    }

    /// Begins to expect a pattern on a port; `data`, if it is given, is written first.
    pub fn expect(
        &self,
        port_name: &str,
        data: Option<Vec<u8>>,
        pattern: Vec<u8>,
        timeout_ms: u64,
        consume: bool,
        match_scope: MatchScope,
        ignore_ansi: bool,
        now: u128,
    ) -> (r: Result<ExpectOp, String>)
        requires
            self.wf(),
        ensures
            match r {
                Ok(op) => manager::refused(self@, port_name@) is None && op.wf() && op@
                    == expect_begun(
                    self@[port_name@].buffer,
                    port_name@,
                    bytes_view(data),
                    pattern@,
                    None,
                    timeout_ms,
                    consume,
                    match_scope,
                    ignore_ansi,
                    now,
                ),
                Err(e) => manager::refused(self@, port_name@) == Some(e@),
            },
    {
        self.begin_expect(
            port_name,
            data,
            pattern,
            None,
            timeout_ms,
            consume,
            match_scope,
            ignore_ansi,
            now,
        )
    }

    /// Begins to expect a pattern on a port, on which a reply is written at once.
    pub fn expect_send(
        &self,
        port_name: &str,
        pattern: Vec<u8>,
        reply: Vec<u8>,
        timeout_ms: u64,
        consume: bool,
        match_scope: MatchScope,
        ignore_ansi: bool,
        now: u128,
    ) -> (r: Result<ExpectOp, String>)
        requires
            self.wf(),
        ensures
            match r {
                Ok(op) => manager::refused(self@, port_name@) is None && op.wf() && op@
                    == expect_begun(
                    self@[port_name@].buffer,
                    port_name@,
                    None,
                    pattern@,
                    Some(reply@),
                    timeout_ms,
                    consume,
                    match_scope,
                    ignore_ansi,
                    now,
                ),
                Err(e) => manager::refused(self@, port_name@) == Some(e@),
            },
    {
        self.begin_expect(
            port_name,
            None,
            pattern,
            Some(reply),
            timeout_ms,
            consume,
            match_scope,
            ignore_ansi,
            now,
        )
    }

    /// Looks for the pattern.
    fn expect_look(&mut self, op: &mut ExpectOp, now: u128) -> (r: Next<ExpectOutcome>)
        requires
            old(self).wf(),
            old(op).wf(),
            old(op)@.phase == ExpectPhase::Waiting,
        ensures
            final(self).wf(),
            final(op).wf(),
            ({
                let s = expect_looks(old(self)@, old(op)@, now);
                final(self)@ == s.ports && final(op)@ == s.op && r@ == s.next
            }),
    {
        let ghost ports = self@;
        let ghost before = op@;
        let mut p = match self.take_port(op.port.as_str()) {
            None => {
                return Next::Fail(
                    manager::about_port(op.port.as_str(), " 未打开，请先调用 uart_open"),
                );
            },
            Some(p) => p,
        };
        let ghost there = p@;
        let (pos, taken, overflow_total) = if op.ignore_ansi {
            p.buffer.find_and_take_ignoring_ansi(
                op.pattern.as_slice(),
                op.consume,
                op.min_position,
            )
        } else {
            p.buffer.find_and_take_from(op.pattern.as_slice(), op.consume, op.min_position)
        };
        let (buffered, _) = p.buffer.stats();
        assert(ports.insert(before.port, there) =~= ports);
        if pos.is_none() {
            let last: u64 = p.last_overflow;
            self.put_port(p);
            assert(self@ =~= ports);
            if !manager::is_over(op.start, op.timeout_ms, now) {
                return Next::Do(Io::Wait);
            }
            return Next::Done(
                ExpectOutcome {
                    matched: false,
                    data: Vec::new(),
                    written: op.written,
                    reason: ExpectReason::Timeout,
                    overflow_delta: if op.consume {
                        overflow_total.saturating_sub(last)
                    } else {
                        0
                    },
                    overflow_total,
                    buffered,
                },
            );
        }
        op.taken = taken;
        op.overflow_total = overflow_total;
        let ghost end = match_end(there.buffer, before)->0;
        let ghost found = ExpectView {
            taken: match_taken(there, before, end),
            overflow_total: there.buffer.overflow_total,
            ..before
        };
        assert(op@.taken =~= found.taken);
        assert(op@ =~= found);
        assert(p@ =~= after_match(there, before, end));
        let mut reply: Option<Vec<u8>> = None;
        match &op.reply {
            Some(bytes) => {
                let mut copy: Vec<u8> = Vec::new();
                copy.extend_from_slice(bytes.as_slice());
                assert(copy@ =~= bytes@);
                reply = Some(copy);
            },
            None => {},
        }
        self.put_port(p);
        assert(self@ =~= ports.insert(before.port, p@));
        match reply {
            Some(bytes) => {
                op.write = WriteOp::new(bytes);
                op.phase = ExpectPhase::Replying;
                if op.write.rest().len() > 0 {
                    Next::Do(Io::Write)
                } else {
                    Next::Do(Io::Flush)
                }
            },
            None => self.expect_report(op),
        }
    }

    /// Reports that the pattern was found.
    fn expect_report(&mut self, op: &mut ExpectOp) -> (r: Next<ExpectOutcome>)
        requires
            old(self).wf(),
            old(op).wf(),
        ensures
            final(self).wf(),
            final(op).wf(),
            ({
                let s = expect_matched(old(self)@, old(op)@);
                final(self)@ == s.ports && final(op)@ == s.op && r@ == s.next
            }),
    {
        let ghost ports = self@;
        let ghost before = op@;
        let mut p = match self.take_port(op.port.as_str()) {
            None => {
                return Next::Fail(
                    manager::about_port(op.port.as_str(), " 未打开，请先调用 uart_open"),
                );
            },
            Some(p) => p,
        };
        let ghost there = p@;
        let mut overflow_delta: u64 = 0;
        if op.consume {
            overflow_delta = op.overflow_total.saturating_sub(p.last_overflow);
            p.last_overflow = op.overflow_total;
        }
        let (buffered, _) = p.buffer.stats();
        self.put_port(p);
        assert(self@ =~= ports.insert(before.port, p@));
        let mut data: Vec<u8> = Vec::new();
        data.extend_from_slice(op.taken.as_slice());
        assert(data@ =~= op.taken@);
        Next::Done(
            ExpectOutcome {
                matched: true,
                data,
                written: op.written,
                reason: ExpectReason::Matched,
                overflow_delta,
                overflow_total: op.overflow_total,
                buffered,
            },
        )
    }

    /// Goes on with an expectation.
    pub fn expect_step(&mut self, op: &mut ExpectOp, event: IoEvent, now: u128) -> (r: Next<
        ExpectOutcome,
    >)
        requires
            old(self).wf(),
            old(op).wf(),
            old(op)@.phase != ExpectPhase::Waiting && io::write_asks(old(op)@.write) == Io::Write
                ==> io::accepts_no_more(
                event,
                old(op)@.write.data.len() - old(op)@.write.written,
            ),
        ensures
            final(self).wf(),
            final(op).wf(),
            ({
                let s = expect_stepped(old(self)@, old(op)@, event@, now);
                final(self)@ == s.ports && final(op)@ == s.op && r@ == s.next
            }),
    {
        let phase = op.phase;
        match phase {
            ExpectPhase::Waiting => self.expect_look(op, now),
            _ => match op.write.step(event) {
                Next::Do(io) => Next::Do(io),
                Next::Fail(e) => Next::Fail(e),
                Next::Done(n) => {
                    op.written = n;
                    if phase == ExpectPhase::Sending {
                        op.phase = ExpectPhase::Waiting;
                        op.start = now;
                        self.expect_look(op, now)
                    } else {
                        self.expect_report(op)
                    }
                },
            },
        }
    }
}

/// A reply is written only after the pattern was found.
pub proof fn law_reply_only_on_match(ports: Ports, op: ExpectView, event: EventView, now: u128)
    requires
        op.phase != ExpectPhase::Replying,
        expect_stepped(ports, op, event, now).op.phase == ExpectPhase::Replying,
    ensures
        op.reply is Some,
        ports.contains_key(op.port),
        match_end(ports[op.port].buffer, op) is Some,
        expect_stepped(ports, op, event, now).op.write == io::write_of(op.reply->0),
{
}

/// When the time is up nothing is taken: all ports are as they were.
pub proof fn law_timeout_takes_nothing(ports: Ports, op: ExpectView, event: EventView, now: u128)
    ensures
        expect_stepped(ports, op, event, now).next matches NextView::Done(o) ==> (!o.matched ==> {
            &&& expect_stepped(ports, op, event, now).ports == ports
            &&& o.data.len() == 0
            &&& o.reason == ExpectReason::Timeout
        }),
{
}

/// An expectation that takes no bytes leaves no trace: no step of it changes a port, so that a
/// later read gives the same bytes and the same losses. Whether the pattern is found or not, it
/// gives no bytes, and reports no losses.
pub proof fn law_looking_leaves_no_trace(ports: Ports, op: ExpectView, event: EventView, now: u128)
    requires
        !op.consume,
        op.taken.len() == 0,
    ensures
        expect_stepped(ports, op, event, now).ports == ports,
        !expect_stepped(ports, op, event, now).op.consume,
        expect_stepped(ports, op, event, now).op.taken.len() == 0,
        expect_stepped(ports, op, event, now).next matches NextView::Done(o) ==> {
            &&& o.overflow_delta == 0
            &&& o.data.len() == 0
        },
{
    if ports.contains_key(op.port) {
        assert(ports.insert(op.port, ports[op.port]) =~= ports);
    }
}

/// An expectation begins with nothing taken.
pub proof fn law_nothing_taken_at_first(
    buffer: RingView,
    port: Seq<char>,
    data: Option<Seq<u8>>,
    pattern: Seq<u8>,
    reply: Option<Seq<u8>>,
    timeout_ms: u64,
    consume: bool,
    match_scope: MatchScope,
    ignore_ansi: bool,
    now: u128,
)
    ensures
        expect_begun(
            buffer,
            port,
            data,
            pattern,
            reply,
            timeout_ms,
            consume,
            match_scope,
            ignore_ansi,
            now,
        ).taken.len() == 0,
{
}

/// A match takes the bytes up to the end of the pattern and leaves the rest. What is taken ends
/// with the pattern, and holds it nowhere before within reach.
pub proof fn law_match_takes_up_to_pattern(p: PortView, op: ExpectView, end: int)
    requires
        op.consume,
        !op.ignore_ansi,
        p.buffer.unread.len() <= p.buffer.position,
        match_end(p.buffer, op) == Some(end),
    ensures
        match_taken(p, op, end) + after_match(p, op, end).buffer.unread == p.buffer.unread,
        match_taken(p, op, end).skip(end - op.pattern.len()) == op.pattern,
        forall|q: int|
            ring::offset_of(p.buffer, op.min_position) <= q < end - op.pattern.len()
                ==> !#[trigger] search::occurs_at(p.buffer.unread, op.pattern, q),
{
    let unread = p.buffer.unread;
    let from = ring::offset_of(p.buffer, op.min_position);
    search::law_first_occurrence(unread, op.pattern, from);
    assert(match_taken(p, op, end) + after_match(p, op, end).buffer.unread =~= unread);
    assert(match_taken(p, op, end).skip(end - op.pattern.len()) =~= unread.subrange(
        end - op.pattern.len(),
        end,
    ));
}

/// With control sequences skipped, what a match takes ends with the last byte of the pattern, the
/// rest stays, and the bytes are taken as they came, control sequences included.
pub proof fn law_visible_match_takes_raw_bytes(p: PortView, op: ExpectView, end: int)
    requires
        op.consume,
        op.ignore_ansi,
        0 < op.pattern.len(),
        p.buffer.unread.len() <= p.buffer.position,
        match_end(p.buffer, op) == Some(end),
    ensures
        0 < end <= p.buffer.unread.len(),
        match_taken(p, op, end) + after_match(p, op, end).buffer.unread == p.buffer.unread,
        ansi::visible(p.buffer.unread, end - 1),
{
    let unread = p.buffer.unread;
    let from = ring::offset_of(p.buffer, op.min_position);
    ansi::law_visible_match(unread, op.pattern, from);
    assert(match_taken(p, op, end) + after_match(p, op, end).buffer.unread =~= unread);
}

/// An expectation of new bytes finds a pattern exactly if the bytes received since it began hold
/// it: what was there before does not count.
pub proof fn law_new_scope_sees_new_bytes(
    buffer: RingView,
    port: Seq<char>,
    data: Option<Seq<u8>>,
    pattern: Seq<u8>,
    reply: Option<Seq<u8>>,
    timeout_ms: u64,
    consume: bool,
    begun: u128,
    received: Seq<u8>,
    now: u128,
)
    requires
        1 <= buffer.capacity,
        buffer.unread.len() <= buffer.capacity,
        buffer.unread.len() <= buffer.position,
        buffer.position + received.len() <= u64::MAX,
    ensures
        ({
            let op = expect_begun(
                buffer,
                port,
                data,
                pattern,
                reply,
                timeout_ms,
                consume,
                MatchScope::New,
                false,
                begun,
            );
            (match_end(ring::pushed(buffer, received, now), op) is Some) == (ring::found(
                ring::last_of(received, buffer.capacity),
                pattern,
                0,
            ) is Some)
        }),
{
    ring::law_watermark(buffer, received, now, pattern);
}

/// With control sequences skipped, too, an expectation of new bytes finds a pattern exactly if the
/// visible ones among the bytes received since it began hold it. What is visible is settled from
/// the oldest unread byte on: a control sequence that began earlier stays invisible to its end.
pub proof fn law_new_scope_sees_new_visible_bytes(
    buffer: RingView,
    port: Seq<char>,
    data: Option<Seq<u8>>,
    pattern: Seq<u8>,
    reply: Option<Seq<u8>>,
    timeout_ms: u64,
    consume: bool,
    begun: u128,
    received: Seq<u8>,
    now: u128,
)
    requires
        1 <= buffer.capacity,
        buffer.unread.len() <= buffer.capacity,
        buffer.unread.len() <= buffer.position,
        buffer.position + received.len() <= u64::MAX,
    ensures
        ({
            let op = expect_begun(
                buffer,
                port,
                data,
                pattern,
                reply,
                timeout_ms,
                consume,
                MatchScope::New,
                true,
                begun,
            );
            let unread = ring::pushed(buffer, received, now).unread;
            let from = unread.len() - ring::last_of(received, buffer.capacity).len();
            let seen = ansi::visible_positions(unread, from, unread.len() as int);
            (match_end(ring::pushed(buffer, received, now), op) is Some) == (pattern.len()
                <= ring::MAX_PATTERN_SIZE && exists|q: int| #[trigger]
                search::occurs_at(ansi::bytes_at(unread, seen), pattern, q))
        }),
{
    ring::law_watermark_visible(buffer, received, now, pattern);
}

/// An expectation begins with everything that it was asked for, whatever the other wishes are: the
/// whole pattern, the whole reply, the whole data. If there are data, they are written first; only
/// bytes from the present position on count if new ones are wanted.
pub proof fn law_expectation_begins_as_asked(
    buffer: RingView,
    port: Seq<char>,
    data: Option<Seq<u8>>,
    pattern: Seq<u8>,
    reply: Option<Seq<u8>>,
    timeout_ms: u64,
    consume: bool,
    match_scope: MatchScope,
    ignore_ansi: bool,
    now: u128,
)
    ensures
        ({
            let op = expect_begun(
                buffer,
                port,
                data,
                pattern,
                reply,
                timeout_ms,
                consume,
                match_scope,
                ignore_ansi,
                now,
            );
            &&& op.port == port
            &&& op.pattern == pattern
            &&& op.reply == reply
            &&& op.timeout_ms == timeout_ms
            &&& op.consume == consume
            &&& op.ignore_ansi == ignore_ansi
            &&& match_scope == MatchScope::Buffer ==> op.min_position is None
            &&& match_scope == MatchScope::New ==> op.min_position == Some(buffer.position)
            &&& data matches Some(d) ==> op.phase == ExpectPhase::Sending && op.write.data == d
                && op.write.written == 0
            &&& data is None ==> op.phase == ExpectPhase::Waiting
            &&& op.start == now
            &&& op.written == 0
            &&& op.taken.len() == 0
            &&& op.overflow_total == 0
        }),
{
}

/// The pattern stands at `q` among the unread bytes, within reach of an expectation: byte for byte,
/// and not before the position from which bytes count.
pub open spec fn stands_at(b: RingView, op: ExpectView, q: int) -> bool {
    &&& 0 <= q
    &&& q + op.pattern.len() <= b.unread.len()
    &&& op.min_position matches Some(from) ==> b.position - b.unread.len() + q >= from
    &&& forall|i: int| 0 <= i < op.pattern.len() ==> b.unread[q + i] == #[trigger] op.pattern[i]
}

/// Visible bytes within reach of an expectation read as its pattern.
pub open spec fn shows_at(b: RingView, op: ExpectView, at: Seq<int>) -> bool {
    &&& ansi::reads_as(b.unread, op.pattern, 0, at)
    &&& op.min_position matches Some(from) ==> b.position - b.unread.len() + at[0] >= from
}

/// A step found the pattern.
pub open spec fn has_found(s: ExpectStep) -> bool {
    s.op.phase == ExpectPhase::Replying || (s.next matches NextView::Done(o) && o.matched)
}

/// An expectation that waits finds its pattern exactly if it stands within reach among the unread
/// bytes.
pub proof fn law_pattern_is_found(ports: Ports, op: ExpectView, event: EventView, now: u128, q: int)
    requires
        op.phase == ExpectPhase::Waiting,
        !op.ignore_ansi,
        op.pattern.len() <= 65_536,
        ports.contains_key(op.port),
        ports[op.port].buffer.unread.len() <= ports[op.port].buffer.position,
        op.min_position matches Some(from) ==> from <= ports[op.port].buffer.position,
    ensures
        stands_at(ports[op.port].buffer, op, q) ==> has_found(expect_stepped(ports, op, event, now)),
        has_found(expect_stepped(ports, op, event, now)) ==> exists|x: int| #[trigger]
            stands_at(ports[op.port].buffer, op, x),
{
    let b = ports[op.port].buffer;
    let from = ring::offset_of(b, op.min_position);
    ring::law_search_is_exact(b.unread, op.pattern, from, q);
    if let Some(p) = ring::found(b.unread, op.pattern, from) {
        assert(stands_at(b, op, p));
    }
}

/// With control sequences skipped, it finds its pattern exactly if visible bytes within reach read as
/// it.
pub proof fn law_visible_pattern_is_found(
    ports: Ports,
    op: ExpectView,
    event: EventView,
    now: u128,
    at: Seq<int>,
)
    requires
        op.phase == ExpectPhase::Waiting,
        op.ignore_ansi,
        0 < op.pattern.len() <= 65_536,
        ports.contains_key(op.port),
        ports[op.port].buffer.unread.len() <= ports[op.port].buffer.position,
        op.min_position matches Some(from) ==> from <= ports[op.port].buffer.position,
    ensures
        shows_at(ports[op.port].buffer, op, at) ==> has_found(expect_stepped(ports, op, event, now)),
        has_found(expect_stepped(ports, op, event, now)) ==> exists|x: Seq<int>| #[trigger]
            shows_at(ports[op.port].buffer, op, x),
{
    let b = ports[op.port].buffer;
    let from = ring::offset_of(b, op.min_position);
    if shows_at(b, op, at) {
        assert forall|i: int| 0 <= i < at.len() implies from <= #[trigger] at[i] < b.unread.len()
            && ansi::visible(b.unread, at[i]) && b.unread[at[i]] == op.pattern[i] by {
            if i > 0 {
                assert(at[0] < at[i]);
            }
        }
        assert(ansi::reads_as(b.unread, op.pattern, from, at));
    }
    ring::law_visible_search_is_exact(b.unread, op.pattern, from, at);
    if let Some((start, end)) = ring::found_visible(b.unread, op.pattern, from) {
        let run = choose|run: Seq<int>| #[trigger]
            ansi::reads_as(b.unread, op.pattern, from, run) && run[0] == start && run[run.len() - 1]
                + 1 == end;
        assert forall|i: int| 0 <= i < run.len() implies 0 <= #[trigger] run[i] < b.unread.len()
            && ansi::visible(b.unread, run[i]) && b.unread[run[i]] == op.pattern[i] by {}
        assert(ansi::reads_as(b.unread, op.pattern, 0, run));
        assert(shows_at(b, op, run));
    }
}

/// An expectation that waits and does not find its pattern waits on until its time is up, and then
/// ends as timed out. It changes no port, and reports what is there.
pub proof fn law_expectation_waits(ports: Ports, op: ExpectView, event: EventView, now: u128)
    requires
        op.phase == ExpectPhase::Waiting,
        ports.contains_key(op.port),
        !has_found(expect_stepped(ports, op, event, now)),
    ensures
        ({
            let s = expect_stepped(ports, op, event, now);
            let p = ports[op.port];
            let late = op.timeout_ms == 0 || now - op.start >= op.timeout_ms * 1_000_000;
            &&& s.ports == ports
            &&& s.op == op
            &&& !late ==> (s.next matches NextView::Do(io) && io == Io::Wait)
            &&& late ==> (s.next matches NextView::Done(o) && {
                &&& !o.matched
                &&& o.reason == ExpectReason::Timeout
                &&& o.data.len() == 0
                &&& o.written == op.written
                &&& o.overflow_total == p.buffer.overflow_total
                &&& op.consume && p.last_overflow <= p.buffer.overflow_total ==> o.overflow_delta
                    == p.buffer.overflow_total - p.last_overflow
                &&& !op.consume ==> o.overflow_delta == 0
                &&& o.buffered == p.buffer.unread.len()
            })
        }),
{
}

/// What finding the pattern does. If bytes are to be taken, those up to the end of the pattern are;
/// the rest stays. A reply is then to be written, all of it, and the expectation is not over before
/// that; without a reply it is over at once, and gives what it took.
pub proof fn law_match_is_followed_up(ports: Ports, op: ExpectView, event: EventView, now: u128)
    requires
        op.phase == ExpectPhase::Waiting,
        ports.contains_key(op.port),
        ports[op.port].buffer.unread.len() <= ports[op.port].buffer.position,
        has_found(expect_stepped(ports, op, event, now)),
    ensures
        ({
            let s = expect_stepped(ports, op, event, now);
            let p = ports[op.port];
            let q = s.ports[op.port];
            &&& s.ports == ports.insert(op.port, q)
            &&& q == (PortView {
                buffer: RingView { unread: q.buffer.unread, ..p.buffer },
                last_overflow: q.last_overflow,
                ..p
            })
            &&& s.op.port == op.port && s.op.consume == op.consume
            &&& op.consume ==> s.op.taken + q.buffer.unread == p.buffer.unread
            &&& op.consume && op.pattern.len() > 0 ==> op.pattern.len() <= s.op.taken.len()
                && s.op.taken.last() == op.pattern.last()
            &&& op.consume && !op.ignore_ansi ==> s.op.taken.skip(
                s.op.taken.len() - op.pattern.len(),
            ) == op.pattern
            &&& !op.consume ==> s.op.taken.len() == 0 && q == p
            &&& s.op.overflow_total == p.buffer.overflow_total
            &&& op.reply matches Some(reply) ==> {
                &&& s.op.phase == ExpectPhase::Replying
                &&& s.op.write.data == reply
                &&& s.op.write.written == 0
                &&& s.next matches NextView::Do(io) && (io == Io::Write) == (reply.len() > 0) && (io
                    == Io::Flush) == (reply.len() == 0)
                &&& q.last_overflow == p.last_overflow
            }
            &&& op.reply is None ==> (s.next matches NextView::Done(o) && {
                &&& o.matched
                &&& o.reason == ExpectReason::Matched
                &&& o.data == s.op.taken
                &&& o.written == op.written
                &&& o.overflow_total == p.buffer.overflow_total
                &&& op.consume && p.last_overflow <= p.buffer.overflow_total ==> o.overflow_delta
                    == p.buffer.overflow_total - p.last_overflow
                &&& op.consume ==> q.last_overflow == p.buffer.overflow_total
                &&& !op.consume ==> o.overflow_delta == 0
                &&& o.buffered == q.buffer.unread.len()
            })
        }),
{
    let b = ports[op.port].buffer;
    let s = expect_stepped(ports, op, event, now);
    let from = ring::offset_of(b, op.min_position);
    let end = match_end(b, op)->0;
    search::law_match_is_real(b.unread, op.pattern, from);
    if op.pattern.len() > 0 {
        ansi::law_visible_match(b.unread, op.pattern, from);
        ansi::law_found_run_reads_as_pattern(b.unread, op.pattern, from);
        if op.ignore_ansi {
            let place = ring::found_visible(b.unread, op.pattern, from)->0;
            let start = place.0;
            let at = choose|at: Seq<int>| #[trigger]
                ansi::reads_as(b.unread, op.pattern, from, at) && at[0] == start && at[at.len() - 1]
                    + 1 == end;
            ring::lemma_increasing(at, (at.len() - 1) as int);
            assert(b.unread[at[at.len() - 1]] == op.pattern[at.len() - 1]);
        }
    }
    let q = s.ports[op.port];
    assert(ports.insert(op.port, after_match(ports[op.port], op, end)).insert(op.port, q)
        =~= ports.insert(op.port, q));
    assert(s.ports =~= ports.insert(op.port, q));
    if op.consume {
        assert(s.op.taken + q.buffer.unread =~= b.unread);
        if !op.ignore_ansi {
            assert(s.op.taken.skip(s.op.taken.len() - op.pattern.len()) =~= op.pattern);
        }
    }
}

/// A reply is written like any other data, and stays the same while it is written. The expectation
/// is over as matched only when the port has accepted all of it and was flushed, and then reports
/// its length, and what was taken; a write that fails ends it with the message.
pub proof fn law_reply_is_written_whole(ports: Ports, op: ExpectView, event: EventView, now: u128)
    requires
        op.phase == ExpectPhase::Replying,
        0 <= op.write.written <= op.write.data.len() <= usize::MAX,
    ensures
        ({
            let s = expect_stepped(ports, op, event, now);
            &&& s.op.write.data == op.write.data
            &&& s.op.taken == op.taken
            &&& s.op.phase == ExpectPhase::Replying
            &&& s.next is Done ==> op.write.written == op.write.data.len() && (event matches EventView::Flushed(Ok(_)))
            &&& op.write.written == op.write.data.len() && (event matches EventView::Flushed(Ok(_)))
                && ports.contains_key(op.port) ==> (s.next matches NextView::Done(o) && {
                &&& o.matched
                &&& o.reason == ExpectReason::Matched
                &&& o.written == op.write.data.len()
                &&& o.data == op.taken
                &&& o.overflow_total == op.overflow_total
                &&& op.consume && ports[op.port].last_overflow <= op.overflow_total
                    ==> o.overflow_delta == op.overflow_total - ports[op.port].last_overflow
                &&& !op.consume ==> o.overflow_delta == 0 && s.ports == ports
                &&& o.buffered == ports[op.port].buffer.unread.len()
                &&& op.consume ==> s.ports == ports.insert(
                    op.port,
                    (PortView { last_overflow: op.overflow_total, ..ports[op.port] }),
                )
            })
            &&& !(s.next is Done) ==> s.ports == ports
            &&& !(s.next is Done) && !(op.write.written == op.write.data.len() && (event matches EventView::Flushed(Ok(_)))) ==> s.op.write == io::write_stepped(op.write, event)
                && match io::write_next(op.write, event) {
                NextView::Do(io) => s.next matches NextView::Do(x) && x == io,
                NextView::Fail(e) => s.next matches NextView::Fail(x) && x == e,
                NextView::Done(_) => false,
            }
        }),
{
    let s = expect_stepped(ports, op, event, now);
    if ports.contains_key(op.port) {
        assert(ports.insert(op.port, ports[op.port]) =~= ports);
    }
}

/// Data that go first are written like any other data. When that is done, the time of the wait
/// begins, and the expectation looks at once, as one that waits does; it reports the length of the
/// data as written.
pub proof fn law_data_go_first(ports: Ports, op: ExpectView, event: EventView, now: u128)
    requires
        op.phase == ExpectPhase::Sending,
        0 <= op.write.written <= op.write.data.len() <= usize::MAX,
    ensures
        ({
            let s = expect_stepped(ports, op, event, now);
            if op.write.written == op.write.data.len() && (event matches EventView::Flushed(Ok(_))) {
                s == expect_stepped(
                    ports,
                    (ExpectView {
                        phase: ExpectPhase::Waiting,
                        start: now,
                        written: op.write.data.len() as usize,
                        ..op
                    }),
                    EventView::Woke,
                    now,
                )
            } else {
                &&& s.ports == ports
                &&& s.op == (ExpectView { write: io::write_stepped(op.write, event), ..op })
                &&& match io::write_next(op.write, event) {
                    NextView::Do(io) => s.next matches NextView::Do(x) && x == io,
                    NextView::Fail(e) => s.next matches NextView::Fail(x) && x == e,
                    NextView::Done(_) => false,
                }
            }
        }),
{
}

/// An expectation on a port that is not open any more says so.
pub proof fn law_expectation_needs_its_port(
    ports: Ports,
    op: ExpectView,
    event: EventView,
    now: u128,
)
    requires
        op.phase == ExpectPhase::Waiting,
        !ports.contains_key(op.port),
    ensures
        expect_stepped(ports, op, event, now).next matches NextView::Fail(m) && m == "端口 "@ + op.port
            + " 未打开，请先调用 uart_open"@,
        expect_stepped(ports, op, event, now).ports == ports,
{
}

}
