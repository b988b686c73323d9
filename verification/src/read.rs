//! Reading from a port, and exchanging: writing and then reading the answer.
//!
//! A read ends when a response seems complete (bytes came in, then none for a while, and the
//! driver holds none either), when enough bytes are there, or when the time is up. It takes all
//! unread bytes.

use vstd::prelude::*;

use crate::io;
use crate::io::EventView;
use crate::io::Io;
use crate::io::IoEvent;
use crate::io::Next;
use crate::io::NextView;
use crate::io::WriteOp;
use crate::io::WriteView;
use crate::manager;
use crate::manager::PortView;
use crate::manager::Ports;
use crate::manager::ReadOutcome;
use crate::manager::ReadOutcomeView;
use crate::manager::ReadReason;
use crate::manager::SerialManager;
use crate::ring::RingView;

verus! {

/// A read, as values.
#[verifier::ext_equal]
pub struct ReadView {
    /// The port.
    pub port: Seq<char>,
    /// How long no byte must have come in, in milliseconds.
    pub idle_ms: u64,
    /// How many unread bytes are enough.
    pub max_bytes: usize,
    /// How long to wait at most, in milliseconds.
    pub timeout_ms: u64,
    /// When the read began.
    pub start: u128,
    /// The number of the last write to the buffer before the operation began.
    pub baseline: u64,
    /// Bytes received earlier are not enough to end the read.
    pub need_new: bool,
}

/// A read that goes on.
#[derive(Debug)]
pub struct ReadOp {
    port: String,
    idle_ms: u64,
    max_bytes: usize,
    timeout_ms: u64,
    start: u128,
    baseline: u64,
    need_new: bool,
}

impl View for ReadOp {
    type V = ReadView;

    closed spec fn view(&self) -> ReadView {
        ReadView {
            port: self.port@,
            idle_ms: self.idle_ms,
            max_bytes: self.max_bytes,
            timeout_ms: self.timeout_ms,
            start: self.start,
            baseline: self.baseline,
            need_new: self.need_new,
        }
    }
}

/// A read at its beginning.
pub open spec fn read_begun(
    p: PortView,
    port: Seq<char>,
    idle_ms: u64,
    max_bytes: usize,
    timeout_ms: u64,
    now: u128,
) -> ReadView {
    ReadView {
        port,
        idle_ms,
        max_bytes,
        timeout_ms,
        start: now,
        baseline: p.buffer.revision,
        need_new: false,
    }
}

/// There is something to end the read with: unread bytes, and new ones if they are needed.
pub open spec fn has_answer(p: PortView, op: ReadView) -> bool {
    p.buffer.unread.len() > 0 && (!op.need_new || p.buffer.revision != op.baseline)
}

/// There is an answer, and no byte has come in for a while.
pub open spec fn is_quiet(p: PortView, op: ReadView, now: u128) -> bool {
    has_answer(p, op) && manager::elapsed(p.buffer.last_write, now) >= manager::nanos(op.idle_ms)
}

/// A port after a read: everything was taken, and the lost bytes were reported.
pub open spec fn after_read(p: PortView) -> PortView {
    PortView {
        buffer: RingView { unread: seq![], ..p.buffer },
        last_overflow: p.buffer.overflow_total,
        ..p
    }
}

/// What a read gives when it ends.
pub open spec fn read_result(p: PortView, op: ReadView, reason: ReadReason) -> ReadOutcomeView {
    ReadOutcomeView {
        data: p.buffer.unread,
        reason,
        overflow_delta: manager::lost_since(p.buffer.overflow_total, p.last_overflow),
        overflow_total: p.buffer.overflow_total,
        buffered: 0,
        new_data_observed: p.buffer.revision != op.baseline,
    }
}

/// Why a read ends now, if it does. The driver must have been asked before a response counts as
/// ended.
pub open spec fn read_ends(p: PortView, op: ReadView, event: EventView, now: u128) -> Option<
    ReadReason,
> {
    if is_quiet(p, op, now) && event == EventView::Queried(Ok(0)) {
        Some(ReadReason::Idle)
    } else if has_answer(p, op) && p.buffer.unread.len() >= op.max_bytes {
        Some(ReadReason::MaxBytes)
    } else if manager::elapsed(op.start, now) >= manager::nanos(op.timeout_ms) {
        Some(ReadReason::Timeout)
    } else {
        None
    }
}

/// How a read goes on.
pub open spec fn read_next(ports: Ports, op: ReadView, event: EventView, now: u128) -> NextView<
    ReadOutcomeView,
> {
    if !ports.contains_key(op.port) {
        NextView::Fail(manager::not_open(op.port))
    } else {
        let p = ports[op.port];
        match event {
            EventView::Queried(Err(e)) => NextView::Fail(io::query_failed(e)),
            _ => if is_quiet(p, op, now) && !(event is Queried) {
                NextView::Do(Io::Query)
            } else {
                match read_ends(p, op, event, now) {
                    Some(reason) => NextView::Done(read_result(p, op, reason)),
                    None => NextView::Do(Io::Wait),
                }
            },
        }
    }
}

/// The ports after a step of a read.
pub open spec fn read_stepped(ports: Ports, op: ReadView, event: EventView, now: u128) -> Ports {
    if read_next(ports, op, event, now) is Done {
        ports.insert(op.port, after_read(ports[op.port]))
    } else {
        ports
    }
}

impl SerialManager {
    /// Begins to read from a port.
    pub fn read(
        &self,
        port_name: &str,
        idle_ms: u64,
        max_bytes: usize,
        timeout_ms: u64,
        now: u128,
    ) -> (r: Result<ReadOp, String>)
        requires
            self.wf(),
        ensures
            match r {
                Ok(op) => manager::refused(self@, port_name@) is None && op@ == read_begun(
                    self@[port_name@],
                    port_name@,
                    idle_ms,
                    max_bytes,
                    timeout_ms,
                    now,
                ),
                Err(e) => manager::refused(self@, port_name@) == Some(e@),
            },
    {
        match self.check(port_name) {
            Err(e) => {
                return Err(e);
            },
            Ok(_) => {},
        }
        let baseline: u64 = match self.port(port_name) {
            Some(p) => p.buffer.stats_with_revision().2,
            None => 0,
        };
        Ok(
            ReadOp {
                port: port_name.to_owned(),
                idle_ms,
                max_bytes,
                timeout_ms,
                start: now,
                baseline,
                need_new: false,
            },
        )
    }

    /// Goes on with a read.
    pub fn read_step(&mut self, op: &ReadOp, event: IoEvent, now: u128) -> (r: Next<ReadOutcome>)
        requires
            old(self).wf(),
        ensures
            final(self).wf(),
            r@ == read_next(old(self)@, op@, event@, now),
            final(self)@ == read_stepped(old(self)@, op@, event@, now),
    {
        let ghost before = self@;
        let mut p = match self.take_port(op.port.as_str()) {
            None => {
                return Next::Fail(
                    manager::about_port(op.port.as_str(), " 未打开，请先调用 uart_open"),
                );
            },
            Some(p) => p,
        };
        let ghost found = p@;
        let mut asked = false;
        let mut driver_empty = false;
        let mut fault: Option<String> = None;
        match event {
            IoEvent::Queried(Ok(n)) => {
                asked = true;
                driver_empty = n == 0;
            },
            IoEvent::Queried(Err(e)) => {
                fault = Some(io::caused("查询串口可读字节数失败: ", e.as_str()));
            },
            _ => {},
        }
        let r = match fault {
            Some(m) => Next::Fail(m),
            None => {
                let (len, _, revision) = p.buffer.stats_with_revision();
                let new_data_observed = revision != op.baseline;
                let answer = len > 0 && (!op.need_new || new_data_observed);
                let quiet = answer && p.buffer.last_write_age(now) >= (op.idle_ms as u128)
                    * 1_000_000;
                if quiet && !asked {
                    Next::Do(Io::Query)
                } else {
                    let reason = if quiet && driver_empty {
                        Some(ReadReason::Idle)
                    } else if answer && len >= op.max_bytes {
                        Some(ReadReason::MaxBytes)
                    } else if manager::is_over(op.start, op.timeout_ms, now) {
                        Some(ReadReason::Timeout)
                    } else {
                        None
                    };
                    match reason {
                        None => Next::Do(Io::Wait),
                        Some(reason) => {
                            let (data, overflow_total) = p.buffer.take_all();
                            let overflow_delta: u64 = overflow_total.saturating_sub(
                                p.last_overflow,
                            );
                            p.last_overflow = overflow_total;
                            let (buffered, _) = p.buffer.stats();
                            Next::Done(
                                ReadOutcome {
                                    data,
                                    reason,
                                    overflow_delta,
                                    overflow_total,
                                    buffered,
                                    new_data_observed,
                                },
                            )
                        },
                    }
                }
            },
        };
        self.put_port(p);
        assert(before.insert(op@.port, found) =~= before);
        assert(self@ =~= before.insert(op@.port, p@));
        r
    }
}

/// An exchange, as values.
#[verifier::ext_equal]
pub struct ExchangeView {
    /// The write, as long as it goes on.
    pub write: Option<WriteView>,
    /// How many bytes were written.
    pub written: usize,
    /// The read that follows.
    pub read: ReadView,
}

/// An exchange that goes on: a write, and then a read that new bytes must end.
#[derive(Debug)]
pub struct ExchangeOp {
    write: WriteOp,
    writing: bool,
    written: usize,
    read: ReadOp,
}

impl View for ExchangeOp {
    type V = ExchangeView;

    closed spec fn view(&self) -> ExchangeView {
        ExchangeView {
            write: if self.writing {
                Some(self.write@)
            } else {
                None
            },
            written: self.written,
            read: self.read@,
        }
    }
}

impl ExchangeOp {
    /// The state is valid.
    pub closed spec fn wf(&self) -> bool {
        self.write.wf()
    }

    /// What is still to be written.
    pub fn rest(&self) -> (r: &[u8])
        requires
            self.wf(),
            self@.write is Some,
        ensures
            r@ == self@.write->0.data.skip(self@.write->0.written),
    {
        self.write.rest()
    }
}

/// An exchange at its beginning. What counts as new is settled here, before anything is written.
pub open spec fn exchange_begun(
    p: PortView,
    port: Seq<char>,
    data: Seq<u8>,
    idle_ms: u64,
    max_bytes: usize,
    timeout_ms: u64,
    now: u128,
) -> ExchangeView {
    ExchangeView {
        write: Some(io::write_of(data)),
        written: 0,
        read: ReadView {
            need_new: true,
            ..read_begun(p, port, idle_ms, max_bytes, timeout_ms, now)
        },
    }
}

/// The read of an exchange, from the moment that the write is done.
pub open spec fn answer_read(op: ExchangeView, now: u128) -> ReadView {
    ReadView { start: now, ..op.read }
}

/// How an exchange that has written so many bytes goes on with its read.
pub open spec fn exchange_read(
    written: usize,
    ports: Ports,
    read: ReadView,
    event: EventView,
    now: u128,
) -> NextView<(usize, ReadOutcomeView)> {
    match read_next(ports, read, event, now) {
        NextView::Do(io) => NextView::Do(io),
        NextView::Done(outcome) => NextView::Done((written, outcome)),
        NextView::Fail(e) => NextView::Fail(e),
    }
}

/// How an exchange goes on.
pub open spec fn exchange_next(
    ports: Ports,
    op: ExchangeView,
    event: EventView,
    now: u128,
) -> NextView<(usize, ReadOutcomeView)> {
    match op.write {
        Some(w) => match io::write_next(w, event) {
            NextView::Do(io) => NextView::Do(io),
            NextView::Fail(e) => NextView::Fail(e),
            NextView::Done(n) => exchange_read(
                n,
                ports,
                answer_read(op, now),
                EventView::Woke,
                now,
            ),
        },
        None => exchange_read(op.written, ports, op.read, event, now),
    }
}

/// An exchange after a step.
pub open spec fn exchange_stepped(op: ExchangeView, event: EventView, now: u128) -> ExchangeView {
    match op.write {
        Some(w) => match io::write_next(w, event) {
            NextView::Done(n) => ExchangeView {
                write: None,
                written: n,
                read: answer_read(op, now),
            },
            _ => ExchangeView { write: Some(io::write_stepped(w, event)), ..op },
        },
        None => op,
    }
}

/// The ports after a step of an exchange.
pub open spec fn exchange_ports(
    ports: Ports,
    op: ExchangeView,
    event: EventView,
    now: u128,
) -> Ports {
    match op.write {
        Some(w) => if io::write_next(w, event) is Done {
            read_stepped(ports, answer_read(op, now), EventView::Woke, now)
        } else {
            ports
        },
        None => read_stepped(ports, op.read, event, now),
    }
}

impl SerialManager {
    /// Begins to write to a port.
    pub fn write(&self, port_name: &str, data: Vec<u8>) -> (r: Result<WriteOp, String>)
        requires
            self.wf(),
        ensures
            match r {
                Ok(op) => manager::refused(self@, port_name@) is None && op.wf() && op@
                    == io::write_of(data@),
                Err(e) => manager::refused(self@, port_name@) == Some(e@),
            },
    {
        match self.check(port_name) {
            Err(e) => Err(e),
            Ok(_) => Ok(WriteOp::new(data)),
        }
    }

    /// Begins an exchange: writes data, and reads the answer. Bytes received before are returned
    /// with the answer, but cannot be taken for it.
    pub fn exchange(
        &self,
        port_name: &str,
        data: Vec<u8>,
        idle_ms: u64,
        max_bytes: usize,
        timeout_ms: u64,
        now: u128,
    ) -> (r: Result<ExchangeOp, String>)
        requires
            self.wf(),
        ensures
            match r {
                Ok(op) => manager::refused(self@, port_name@) is None && op.wf() && op@
                    == exchange_begun(
                    self@[port_name@],
                    port_name@,
                    data@,
                    idle_ms,
                    max_bytes,
                    timeout_ms,
                    now,
                ),
                Err(e) => manager::refused(self@, port_name@) == Some(e@),
            },
    {
        match self.read(port_name, idle_ms, max_bytes, timeout_ms, now) {
            Err(e) => Err(e),
            Ok(read) => {
                let mut read = read;
                read.need_new = true;
                Ok(ExchangeOp { write: WriteOp::new(data), writing: true, written: 0, read })
            },
        }
    }

    /// Goes on with an exchange. Returns how many bytes were written, and what the read gave.
    pub fn exchange_step(&mut self, op: &mut ExchangeOp, event: IoEvent, now: u128) -> (r: Next<
        (usize, ReadOutcome),
    >)
        requires
            old(self).wf(),
            old(op).wf(),
            old(op)@.write matches Some(w) ==> (io::write_asks(w) == Io::Write
                ==> io::accepts_no_more(event, w.data.len() - w.written)),
        ensures
            final(self).wf(),
            final(op).wf(),
            r@ == exchange_next(old(self)@, old(op)@, event@, now),
            final(op)@ == exchange_stepped(old(op)@, event@, now),
            final(self)@ == exchange_ports(old(self)@, old(op)@, event@, now),
    {
        let mut event = event;
        if op.writing {
            match op.write.step(event) {
                Next::Do(io) => {
                    return Next::Do(io);
                },
                Next::Fail(e) => {
                    return Next::Fail(e);
                },
                Next::Done(n) => {
                    op.writing = false;
                    op.written = n;
                    op.read.start = now;
                    event = IoEvent::Woke;
                },
            }
        }
        match self.read_step(&op.read, event, now) {
            Next::Do(io) => Next::Do(io),
            Next::Fail(e) => Next::Fail(e),
            Next::Done(outcome) => Next::Done((op.written, outcome)),
        }
    }
}

/// A read that gives nothing has waited in vain for the whole time. If it ends earlier, it gives
/// at least one byte.
pub proof fn law_empty_only_on_timeout(ports: Ports, op: ReadView, event: EventView, now: u128)
    ensures
        read_next(ports, op, event, now) matches NextView::Done(o) ==> (o.data.len() == 0
            ==> o.reason == ReadReason::Timeout),
        read_next(ports, op, event, now) matches NextView::Done(o) ==> (o.reason
            == ReadReason::Timeout ==> manager::elapsed(op.start, now) >= manager::nanos(
            op.timeout_ms,
        )),
{
}

/// A response counts as ended only if no byte has come in for the time asked for, and the driver
/// holds no byte either.
pub proof fn law_idle_is_quiet(ports: Ports, op: ReadView, event: EventView, now: u128)
    ensures
        read_next(ports, op, event, now) matches NextView::Done(o) ==> (o.reason
            == ReadReason::Idle ==> {
            &&& event == EventView::Queried(Ok(0))
            &&& manager::elapsed(ports[op.port].buffer.last_write, now) >= manager::nanos(
                op.idle_ms,
            )
        }),
{
}

/// What a read takes and what was there are the same, nothing stays behind, and no other port is
/// touched.
pub proof fn law_read_takes_everything(
    ports: Ports,
    op: ReadView,
    event: EventView,
    now: u128,
    other: Seq<char>,
)
    requires
        read_next(ports, op, event, now) is Done,
        other != op.port,
    ensures
        read_next(ports, op, event, now)->Done_0.data == ports[op.port].buffer.unread,
        read_stepped(ports, op, event, now)[op.port].buffer.unread.len() == 0,
        read_stepped(ports, op, event, now).contains_key(other) == ports.contains_key(other),
        read_stepped(ports, op, event, now)[other] == ports[other],
{
}

/// When the time is up a read does not wait any longer: it ends, or asks the driver once more and
/// then ends.
pub proof fn law_read_ends_in_time(ports: Ports, op: ReadView, event: EventView, now: u128)
    requires
        manager::elapsed(op.start, now) >= manager::nanos(op.timeout_ms),
    ensures
        read_next(ports, op, event, now) != NextView::<ReadOutcomeView>::Do(Io::Wait),
        event is Queried ==> !(read_next(ports, op, event, now) is Do),
{
}

/// An exchange that ends before the time is up has received bytes since it began: bytes that were
/// there before do not end it.
pub proof fn law_exchange_needs_new_bytes(
    ports: Ports,
    op: ExchangeView,
    event: EventView,
    now: u128,
)
    requires
        op.read.need_new,
    ensures
        exchange_next(ports, op, event, now) matches NextView::Done(o) ==> (o.1.reason
            != ReadReason::Timeout ==> o.1.new_data_observed && ports[op.read.port].buffer.revision
            != op.read.baseline),
{
}

/// What a read decides. The port has an answer if bytes are unread, and if new ones came in where
/// they are needed. If an answer is there and no byte came in for `idle_ms`, the driver is asked,
/// and if it holds no byte the read ends as idle. Else `max_bytes` unread bytes of an answer end
/// it, and else the end of its time. Until then it waits.
pub proof fn law_read_decides(ports: Ports, op: ReadView, event: EventView, now: u128)
    requires
        ports.contains_key(op.port),
        !(event matches EventView::Queried(Err(_))),
    ensures
        ({
            let b = ports[op.port].buffer;
            let answer = b.unread.len() > 0 && (op.need_new ==> b.revision != op.baseline);
            let quiet = answer && (op.idle_ms == 0 || now - b.last_write >= op.idle_ms * 1_000_000);
            let late = op.timeout_ms == 0 || now - op.start >= op.timeout_ms * 1_000_000;
            let next = read_next(ports, op, event, now);
            if quiet && !(event is Queried) {
                next matches NextView::Do(io) && io == Io::Query
            } else if quiet && event == EventView::Queried(Ok(0)) {
                next matches NextView::Done(o) && o.reason == ReadReason::Idle
            } else if answer && b.unread.len() >= op.max_bytes {
                next matches NextView::Done(o) && o.reason == ReadReason::MaxBytes
            } else if late {
                next matches NextView::Done(o) && o.reason == ReadReason::Timeout
            } else {
                next matches NextView::Do(io) && io == Io::Wait
            }
        }),
{
}

/// A read that cannot go on says why: the port is not open, or the driver does not answer.
pub proof fn law_read_fails(ports: Ports, op: ReadView, e: Seq<char>, event: EventView, now: u128)
    ensures
        !ports.contains_key(op.port) ==> (read_next(ports, op, event, now) matches NextView::Fail(m)
            && m == "端口 "@ + op.port + " 未打开，请先调用 uart_open"@),
        ports.contains_key(op.port) ==> (read_next(
            ports,
            op,
            EventView::Queried(Err(e)),
            now,
        ) matches NextView::Fail(m) && m == "查询串口可读字节数失败: "@ + e),
        read_next(ports, op, event, now) is Fail ==> !ports.contains_key(op.port) || event
            matches EventView::Queried(Err(_)),
{
}

/// What a read gives and leaves. It gives all unread bytes, the losses that no call has reported
/// yet, and whether bytes came in since it began; the losses then count as reported. As long as it
/// goes on, or if it fails, it changes nothing.
pub proof fn law_read_gives_what_was_there(ports: Ports, op: ReadView, event: EventView, now: u128)
    ensures
        !(read_next(ports, op, event, now) is Done) ==> read_stepped(ports, op, event, now) == ports,
        read_next(ports, op, event, now) matches NextView::Done(o) ==> {
            let p = ports[op.port];
            let after = read_stepped(ports, op, event, now);
            let q = after[op.port];
            &&& o.data == p.buffer.unread
            &&& o.overflow_total == p.buffer.overflow_total
            &&& p.last_overflow <= p.buffer.overflow_total ==> o.overflow_delta
                == p.buffer.overflow_total - p.last_overflow
            &&& o.buffered == 0
            &&& o.new_data_observed == (p.buffer.revision != op.baseline)
            &&& after == ports.insert(op.port, q)
            &&& q.buffer.unread.len() == 0
            &&& q.last_overflow == p.buffer.overflow_total
            &&& q == (PortView {
                buffer: RingView { unread: q.buffer.unread, ..p.buffer },
                last_overflow: q.last_overflow,
                ..p
            })
        },
{
}

/// Once its write is done an exchange goes on as a read does, on the same ports, and gives what the
/// read gives, with the number of bytes written.
pub proof fn law_exchange_reads_like_a_read(
    ports: Ports,
    op: ExchangeView,
    event: EventView,
    now: u128,
)
    requires
        op.write is None,
    ensures
        match read_next(ports, op.read, event, now) {
            NextView::Do(io) => exchange_next(ports, op, event, now) matches NextView::Do(x) && x
                == io,
            NextView::Done(o) => exchange_next(ports, op, event, now) matches NextView::Done(x) && x.0
                == op.written && x.1 == o,
            NextView::Fail(e) => exchange_next(ports, op, event, now) matches NextView::Fail(x) && x
                == e,
        },
        exchange_ports(ports, op, event, now) == read_stepped(ports, op.read, event, now),
        exchange_stepped(op, event, now) == op,
{
}

/// What an exchange whose write is done decides: an answer that new bytes belong to, and a quiet
/// line, end it as idle, and the other ends are those of a read.
pub proof fn law_exchange_decides(ports: Ports, op: ExchangeView, event: EventView, now: u128)
    requires
        op.write is None,
        op.read.need_new,
        ports.contains_key(op.read.port),
        !(event matches EventView::Queried(Err(_))),
    ensures
        ({
            let b = ports[op.read.port].buffer;
            let answer = b.unread.len() > 0 && b.revision != op.read.baseline;
            let quiet = answer && (op.read.idle_ms == 0 || now - b.last_write >= op.read.idle_ms
                * 1_000_000);
            let late = op.read.timeout_ms == 0 || now - op.read.start >= op.read.timeout_ms
                * 1_000_000;
            let next = exchange_next(ports, op, event, now);
            if quiet && !(event is Queried) {
                next matches NextView::Do(io) && io == Io::Query
            } else if quiet && event == EventView::Queried(Ok(0)) {
                next matches NextView::Done(o) && o.0 == op.written && o.1.reason == ReadReason::Idle
                    && o.1.data == b.unread
            } else if answer && b.unread.len() >= op.read.max_bytes {
                next matches NextView::Done(o) && o.0 == op.written && o.1.reason
                    == ReadReason::MaxBytes && o.1.data == b.unread
            } else if late {
                next matches NextView::Done(o) && o.0 == op.written && o.1.reason
                    == ReadReason::Timeout && o.1.data == b.unread
            } else {
                next matches NextView::Do(io) && io == Io::Wait
            }
        }),
{
}

/// As long as an exchange writes, it asks for what its write asks for, fails as it fails, and
/// touches no port. When the write is done, the time of the read begins, and it is a read from
/// then on; what counts as new bytes was settled before.
pub proof fn law_exchange_writes_first(
    ports: Ports,
    op: ExchangeView,
    event: EventView,
    now: u128,
)
    requires
        op.write is Some,
    ensures
        ({
            let w = op.write->0;
            let after = exchange_stepped(op, event, now);
            match io::write_next(w, event) {
                NextView::Do(io) => {
                    &&& exchange_next(ports, op, event, now) matches NextView::Do(x) && x == io
                    &&& exchange_ports(ports, op, event, now) == ports
                    &&& after.write == Some(io::write_stepped(w, event))
                    &&& after.read == op.read
                },
                NextView::Fail(e) => {
                    &&& exchange_next(ports, op, event, now) matches NextView::Fail(x) && x == e
                    &&& exchange_ports(ports, op, event, now) == ports
                },
                NextView::Done(n) => {
                    &&& after.write is None
                    &&& after.written == n
                    &&& after.read.start == now
                    &&& after.read.port == op.read.port
                    &&& after.read.idle_ms == op.read.idle_ms
                    &&& after.read.max_bytes == op.read.max_bytes
                    &&& after.read.timeout_ms == op.read.timeout_ms
                    &&& after.read.baseline == op.read.baseline
                    &&& after.read.need_new == op.read.need_new
                    &&& exchange_next(ports, op, event, now) == exchange_next(
                        ports,
                        after,
                        EventView::Woke,
                        now,
                    )
                    &&& exchange_ports(ports, op, event, now) == exchange_ports(
                        ports,
                        after,
                        EventView::Woke,
                        now,
                    )
                },
            }
        }),
{
}

/// A read begins with what it was asked for, at the time at which it was asked; bytes that are there
/// count for it. An exchange begins with its whole data to write, and needs bytes that come in after
/// it began.
pub proof fn law_begins_as_asked(
    p: PortView,
    port: Seq<char>,
    data: Seq<u8>,
    idle_ms: u64,
    max_bytes: usize,
    timeout_ms: u64,
    now: u128,
)
    ensures
        ({
            let r = read_begun(p, port, idle_ms, max_bytes, timeout_ms, now);
            &&& r.port == port
            &&& r.idle_ms == idle_ms
            &&& r.max_bytes == max_bytes
            &&& r.timeout_ms == timeout_ms
            &&& r.start == now
            &&& r.baseline == p.buffer.revision
            &&& !r.need_new
        }),
        ({
            let x = exchange_begun(p, port, data, idle_ms, max_bytes, timeout_ms, now);
            &&& x.write matches Some(w) && w.data == data && w.written == 0
            &&& x.written == 0
            &&& x.read.port == port
            &&& x.read.idle_ms == idle_ms
            &&& x.read.max_bytes == max_bytes
            &&& x.read.timeout_ms == timeout_ms
            &&& x.read.baseline == p.buffer.revision
            &&& x.read.need_new
        }),
{
}

}
