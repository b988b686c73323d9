//! Sending a file to a port, chunk by chunk.
//!
//! Before each chunk the transfer looks whether it is to stop: it was cancelled, the device is
//! gone, or its time is up. Between chunks it may pause. A client that withdraws its request ends
//! the transfer there, too; a request to cancel counts before the next chunk.

use vstd::prelude::*;
use vstd::string::StringExecFns;

use crate::io;
use crate::io::EventView;
use crate::io::Io;
use crate::io::IoEvent;
use crate::io::Next;
use crate::io::NextView;
use crate::io::WriteOp;
use crate::io::WriteView;
use crate::manager;
use crate::manager::PortView;
use crate::manager::Ports;
use crate::manager::ProgressView;
use crate::manager::SendFileOutcome;
use crate::manager::SendFileOutcomeView;
use crate::manager::SerialManager;
use crate::sendfile;
use crate::text;

verus! {

/// How a transfer ends.
#[derive(Debug, Clone, Copy, PartialEq, Eq, Structural)]
pub enum SendEnd {
    /// Everything was written.
    Completed,
    /// It was asked to stop, or the port is gone.
    Cancelled,
    /// The reader of the port has given up: the device is gone.
    DeviceError,
    /// Its time was up.
    DurationLimit,
    /// The file could not be read, or the port not be written.
    Error,
}

/// The word for how a transfer ends.
pub open spec fn end_name(end: SendEnd) -> Seq<char> {
    match end {
        SendEnd::Completed => "completed"@,
        SendEnd::Cancelled => "cancelled"@,
        SendEnd::DeviceError => "device_error"@,
        SendEnd::DurationLimit => "duration_limit"@,
        SendEnd::Error => "error"@,
    }
}

impl SendEnd {
    /// The word for how a transfer ends.
    pub fn as_str(&self) -> (r: &'static str)
        ensures
            r@ == end_name(*self),
    {
        match self {
            SendEnd::Completed => "completed",
            SendEnd::Cancelled => "cancelled",
            SendEnd::DeviceError => "device_error",
            SendEnd::DurationLimit => "duration_limit",
            SendEnd::Error => "error",
        }
    }
}

/// Where a transfer stands.
#[derive(Debug, Clone, Copy, PartialEq, Eq, Structural)]
pub enum SendPhase {
    /// It needs the next chunk.
    Next,
    /// It writes a chunk.
    Writing,
    /// It pauses.
    Gap,
    /// It has ended.
    Over,
}

/// A transfer, as values.
#[verifier::ext_equal]
pub struct SendView {
    /// The port.
    pub port: Seq<char>,
    /// The size of the file.
    pub total_bytes: u64,
    /// The pause after each chunk, in milliseconds.
    pub gap_ms: u64,
    /// How long it may take, in milliseconds.
    pub max_duration_ms: Option<u64>,
    /// When it began.
    pub started: u128,
    /// The count of lost bytes when it began.
    pub overflow_before: u64,
    /// How many bytes were written.
    pub sent_bytes: u64,
    /// How many chunks were written.
    pub chunks: u64,
    /// Where it stands.
    pub phase: SendPhase,
    /// The write that goes on, or the last one.
    pub write: WriteView,
    /// When the pause began.
    pub gap_start: u128,
}

/// A transfer that goes on.
#[derive(Debug)]
pub struct SendOp {
    port: String,
    total_bytes: u64,
    gap_ms: u64,
    max_duration_ms: Option<u64>,
    started: u128,
    overflow_before: u64,
    sent_bytes: u64,
    chunks: u64,
    phase: SendPhase,
    write: WriteOp,
    gap_start: u128,
}

impl View for SendOp {
    type V = SendView;

    closed spec fn view(&self) -> SendView {
        SendView {
            port: self.port@,
            total_bytes: self.total_bytes,
            gap_ms: self.gap_ms,
            max_duration_ms: self.max_duration_ms,
            started: self.started,
            overflow_before: self.overflow_before,
            sent_bytes: self.sent_bytes,
            chunks: self.chunks,
            phase: self.phase,
            write: self.write@,
            gap_start: self.gap_start,
        }
    }
}

impl SendOp {
    /// The state is valid: a chunk that is being written can be counted.
    pub closed spec fn wf(&self) -> bool {
        &&& self.write.wf()
        &&& self.phase == SendPhase::Writing ==> {
            &&& self.sent_bytes + self.write@.data.len() <= u64::MAX
            &&& self.chunks < u64::MAX
        }
    }

    /// What is still to be written.
    pub fn rest(&self) -> (r: &[u8])
        requires
            self.wf(),
        ensures
            r@ == self@.write.data.skip(self@.write.written),
    {
        self.write.rest()
    }

    /// How many bytes and chunks were written.
    pub fn counts(&self) -> (r: (u64, u64))
        ensures
            r == (self@.sent_bytes, self@.chunks),
    {
        (self.sent_bytes, self.chunks)
    }
}

/// The transfer is to stop: it was asked to, the client withdrew its request, or the port is gone.
pub open spec fn is_cancelled(ports: Ports, op: SendView, withdrawn: bool) -> bool {
    !ports.contains_key(op.port) || ports[op.port].cancel || withdrawn
}

/// The time of a transfer is up.
pub open spec fn is_late(op: SendView, now: u128) -> bool {
    op.max_duration_ms matches Some(ms) && manager::elapsed(op.started, now) >= manager::nanos(ms)
}

/// A pause is over: it has lasted long enough, the time of the transfer is up, or the port is to be
/// closed, which does not wait for it.
pub open spec fn pause_over(ports: Ports, op: SendView, now: u128) -> bool {
    ||| manager::elapsed(op.gap_start, now) >= manager::nanos(op.gap_ms)
    ||| is_late(op, now)
    ||| ports.contains_key(op.port) && ports[op.port].closing
}

/// Why a transfer stops before its next chunk, if it does.
pub open spec fn stops(ports: Ports, op: SendView, withdrawn: bool, now: u128) -> Option<SendEnd> {
    if is_cancelled(ports, op, withdrawn) {
        Some(SendEnd::Cancelled)
    } else if ports[op.port].read_error is Some {
        Some(SendEnd::DeviceError)
    } else if is_late(op, now) {
        Some(SendEnd::DurationLimit)
    } else {
        None
    }
}

/// How far a transfer that failed had come, in words.
pub open spec fn progress_note(op: SendView) -> Seq<char> {
    "（已发送 "@ + text::decimal(op.sent_bytes as nat) + " 字节 / "@ + text::decimal(
        op.chunks as nat,
    ) + " 片）"@
}

/// The ports after a transfer has ended.
pub open spec fn ports_ended(ports: Ports, op: SendView, end: SendEnd) -> Ports {
    if ports.contains_key(op.port) {
        let p = ports[op.port];
        ports.insert(
            op.port,
            PortView {
                send: ProgressView {
                    active: false,
                    last_reason: Some(end_name(end)),
                    sent_bytes: op.sent_bytes,
                    chunks: op.chunks,
                    ..p.send
                },
                ..p
            },
        )
    } else {
        ports
    }
}

/// The ports after a transfer has come further.
pub open spec fn ports_updated(ports: Ports, op: SendView) -> Ports {
    if ports.contains_key(op.port) {
        let p = ports[op.port];
        ports.insert(
            op.port,
            PortView {
                send: ProgressView { sent_bytes: op.sent_bytes, chunks: op.chunks, ..p.send },
                ..p
            },
        )
    } else {
        ports
    }
}

/// The count of lost bytes of the port.
pub open spec fn overflow_now(ports: Ports, op: SendView) -> u64 {
    if ports.contains_key(op.port) {
        ports[op.port].buffer.overflow_total
    } else {
        op.overflow_before
    }
}

/// What a transfer gives that has ended.
pub open spec fn send_result(
    ports: Ports,
    op: SendView,
    end: SendEnd,
    now: u128,
) -> SendFileOutcomeView {
    SendFileOutcomeView {
        reason: end_name(end),
        raw_bytes: op.total_bytes,
        sent_bytes: op.sent_bytes,
        chunks: op.chunks,
        elapsed_ms: (manager::elapsed(op.started, now) / 1_000_000) as u64,
        overflow_delta: manager::lost_since(overflow_now(ports, op), op.overflow_before),
        overflow_total: overflow_now(ports, op),
        device_error: if end == SendEnd::DeviceError {
            ports[op.port].read_error
        } else {
            None
        },
    }
}

/// The ports, the transfer and how it goes on.
pub struct SendStep {
    pub ports: Ports,
    pub op: SendView,
    pub next: NextView<SendFileOutcomeView>,
}

/// The end of a transfer.
pub open spec fn send_ended(ports: Ports, op: SendView, end: SendEnd, now: u128) -> SendStep {
    SendStep {
        ports: ports_ended(ports, op, end),
        op: SendView { phase: SendPhase::Over, ..op },
        next: NextView::Done(send_result(ports, op, end, now)),
    }
}

/// The end of a transfer that failed.
pub open spec fn send_failed(ports: Ports, op: SendView, e: Seq<char>) -> SendStep {
    SendStep {
        ports: ports_ended(ports, op, SendEnd::Error),
        op: SendView { phase: SendPhase::Over, ..op },
        next: NextView::Fail(e + progress_note(op)),
    }
}

/// A transfer that a chunk was written of.
pub open spec fn counted(op: SendView, n: usize, now: u128) -> SendView {
    SendView {
        sent_bytes: (op.sent_bytes + n) as u64,
        chunks: (op.chunks + 1) as u64,
        phase: if op.gap_ms > 0 {
            SendPhase::Gap
        } else {
            SendPhase::Next
        },
        gap_start: if op.gap_ms > 0 {
            now
        } else {
            op.gap_start
        },
        ..op
    }
}

/// A step of a transfer. `withdrawn` says that the client withdrew its request.
pub open spec fn send_stepped(
    ports: Ports,
    op: SendView,
    event: EventView,
    withdrawn: bool,
    now: u128,
) -> SendStep {
    match op.phase {
        SendPhase::Writing => {
            let w = SendView { write: io::write_stepped(op.write, event), ..op };
            match io::write_next(op.write, event) {
                NextView::Do(io) => SendStep { ports, op: w, next: NextView::Do(io) },
                NextView::Fail(e) => send_failed(ports, w, io::write_failed(e)),
                NextView::Done(n) => {
                    let done = counted(w, n, now);
                    SendStep {
                        ports: ports_updated(ports, done),
                        op: done,
                        next: NextView::Do(
                            if op.gap_ms > 0 {
                                Io::Wait
                            } else {
                                Io::Chunk
                            },
                        ),
                    }
                },
            }
        },
        SendPhase::Gap => if withdrawn {
            send_ended(ports, op, SendEnd::Cancelled, now)
        } else if pause_over(ports, op, now) {
            SendStep {
                ports,
                op: SendView { phase: SendPhase::Next, ..op },
                next: NextView::Do(Io::Chunk),
            }
        } else {
            SendStep { ports, op, next: NextView::Do(Io::Wait) }
        },
        _ => match event {
            EventView::Chunk(Err(e)) => send_failed(ports, op, e),
            EventView::Chunk(Ok(None)) => send_ended(ports, op, SendEnd::Completed, now),
            EventView::Chunk(Ok(Some(c))) => match stops(ports, op, withdrawn, now) {
                Some(end) => send_ended(ports, op, end, now),
                None => {
                    let w = io::write_of(c);
                    SendStep {
                        ports,
                        op: SendView { phase: SendPhase::Writing, write: w, ..op },
                        next: NextView::Do(io::write_asks(w)),
                    }
                },
            },
            _ => SendStep { ports, op, next: NextView::Do(Io::Chunk) },
        },
    }
}

/// A transfer at its beginning.
pub open spec fn send_begun(
    p: PortView,
    port: Seq<char>,
    total_bytes: u64,
    gap_ms: u64,
    max_duration_ms: Option<u64>,
    now: u128,
) -> SendView {
    SendView {
        port,
        total_bytes,
        gap_ms,
        max_duration_ms,
        started: now,
        overflow_before: p.buffer.overflow_total,
        sent_bytes: 0,
        chunks: 0,
        phase: SendPhase::Next,
        write: io::write_of(seq![]),
        gap_start: now,
    }
}

/// A port whose transfer has just begun.
pub open spec fn port_begun(p: PortView, total_bytes: u64) -> PortView {
    PortView {
        send: ProgressView { active: true, last_reason: None, sent_bytes: 0, total_bytes, chunks: 0 },
        cancel: false,
        ..p
    }
}

impl SerialManager {
    /// Begins to send a file to a port.
    pub fn send_file(
        &mut self,
        port_name: &str,
        total_bytes: u64,
        gap_ms: u64,
        max_duration_ms: Option<u64>,
        now: u128,
    ) -> (r: Result<SendOp, String>)
        requires
            old(self).wf(),
        ensures
            final(self).wf(),
            match r {
                Ok(op) => {
                    let p = old(self)@[port_name@];
                    &&& manager::refused(old(self)@, port_name@) is None
                    &&& op.wf()
                    &&& op@ == send_begun(p, port_name@, total_bytes, gap_ms, max_duration_ms, now)
                    &&& final(self)@ == old(self)@.insert(port_name@, port_begun(p, total_bytes))
                },
                Err(e) => manager::refused(old(self)@, port_name@) == Some(e@) && final(self)@
                    == old(self)@,
            },
    {
        let ghost ports = self@;
        match self.check(port_name) {
            Err(e) => {
                return Err(e);
            },
            Ok(_) => {},
        }
        let mut overflow_before: u64 = 0;
        match self.take_port(port_name) {
            None => {},
            Some(p) => {
                let mut p = p;
                let (_, total) = p.buffer.stats();
                overflow_before = total;
                p.send.begin(total_bytes);
                self.put_port(p);
                assert(self@ =~= ports.insert(port_name@, p@));
            },
        }
        let op = SendOp {
            port: port_name.to_owned(),
            total_bytes,
            gap_ms,
            max_duration_ms,
            started: now,
            overflow_before,
            sent_bytes: 0,
            chunks: 0,
            phase: SendPhase::Next,
            write: WriteOp::new(Vec::new()),
            gap_start: now,
        };
        assert(op@.write.data =~= seq![]);
        Ok(op)
    }

    /// Ends a transfer, and says how far it had come.
    fn send_end(&mut self, op: &mut SendOp, end: SendEnd, now: u128) -> (r: Next<SendFileOutcome>)
        requires
            old(self).wf(),
            old(op).wf(),
            end == SendEnd::DeviceError ==> old(self)@.contains_key(old(op)@.port),
        ensures
            final(self).wf(),
            final(op).wf(),
            ({
                let s = send_ended(old(self)@, old(op)@, end, now);
                final(self)@ == s.ports && final(op)@ == s.op && r@ == s.next
            }),
    {
        let ghost ports = self@;
        let ghost before = op@;
        let mut overflow_total: u64 = op.overflow_before;
        let mut device_error: Option<String> = None;
        match self.take_port(op.port.as_str()) {
            None => {},
            Some(p) => {
                let mut p = p;
                let (_, total) = p.buffer.stats();
                overflow_total = total;
                if end == SendEnd::DeviceError {
                    device_error = manager::copy_text(&p.read_error);
                }
                p.send.finish(end.as_str(), op.sent_bytes, op.chunks);
                self.put_port(p);
                assert(self@ =~= ports.insert(before.port, p@));
            },
        }
        op.phase = SendPhase::Over;
        let elapsed: u128 = now.saturating_sub(op.started);
        Next::Done(
            SendFileOutcome {
                reason: end.as_str().to_owned(),
                raw_bytes: op.total_bytes,
                sent_bytes: op.sent_bytes,
                chunks: op.chunks,
                elapsed_ms: (elapsed / 1_000_000) as u64,
                overflow_delta: overflow_total.saturating_sub(op.overflow_before),
                overflow_total,
                device_error,
            },
        )
    }

    /// Ends a transfer that failed.
    fn send_fail(&mut self, op: &mut SendOp, e: String) -> (r: Next<SendFileOutcome>)
        requires
            old(self).wf(),
            old(op).wf(),
        ensures
            final(self).wf(),
            final(op).wf(),
            ({
                let s = send_failed(old(self)@, old(op)@, e@);
                final(self)@ == s.ports && final(op)@ == s.op && r@ == s.next
            }),
    {
        let ghost ports = self@;
        let ghost before = op@;
        match self.take_port(op.port.as_str()) {
            None => {},
            Some(p) => {
                let mut p = p;
                p.send.finish(SendEnd::Error.as_str(), op.sent_bytes, op.chunks);
                self.put_port(p);
                assert(self@ =~= ports.insert(before.port, p@));
            },
        }
        op.phase = SendPhase::Over;
        let mut m = e;
        let ghost cause = m@;
        m.append("（已发送 ");
        m.append(text::decimal_text(op.sent_bytes).as_str());
        m.append(" 字节 / ");
        m.append(text::decimal_text(op.chunks).as_str());
        m.append(" 片）");
        assert(m@ =~= cause + progress_note(before));
        Next::Fail(m)
    }

    /// Goes on with a transfer. `withdrawn` says that the client withdrew its request.
    pub fn send_step(
        &mut self,
        op: &mut SendOp,
        event: IoEvent,
        withdrawn: bool,
        now: u128,
    ) -> (r: Next<SendFileOutcome>)
        requires
            old(self).wf(),
            old(op).wf(),
            old(op)@.phase != SendPhase::Over,
            old(op)@.phase == SendPhase::Writing && io::write_asks(old(op)@.write) == Io::Write
                ==> io::accepts_no_more(
                event,
                old(op)@.write.data.len() - old(op)@.write.written,
            ),
            event matches IoEvent::Chunk(Ok(Some(c))) ==> old(op)@.sent_bytes + c@.len() <= u64::MAX
                && old(op)@.chunks < u64::MAX,
        ensures
            final(self).wf(),
            final(op).wf(),
            ({
                let s = send_stepped(old(self)@, old(op)@, event@, withdrawn, now);
                final(self)@ == s.ports && final(op)@ == s.op && r@ == s.next
            }),
    {
        let ghost ports = self@;
        let ghost before = op@;
        let mut gone = true;
        let mut cancel = false;
        let mut broken = false;
        let mut closing = false;
        match self.port(op.port.as_str()) {
            None => {},
            Some(p) => {
                gone = false;
                cancel = p.send.cancel;
                broken = p.read_error.is_some();
                closing = p.closing;
            },
        }
        let cancelled = gone || cancel || withdrawn;
        let late = match op.max_duration_ms {
            Some(ms) => manager::is_over(op.started, ms, now),
            None => false,
        };
        match op.phase {
            SendPhase::Writing => {
                match op.write.step(event) {
                    Next::Do(io) => Next::Do(io),
                    Next::Fail(e) => {
                        let m = io::caused("写入失败: ", e.as_str());
                        self.send_fail(op, m)
                    },
                    Next::Done(n) => {
                        proof {
                            op.write.law_accepted();
                        }
                        op.sent_bytes = op.sent_bytes + n as u64;
                        op.chunks = op.chunks + 1;
                        op.phase = if op.gap_ms > 0 {
                            SendPhase::Gap
                        } else {
                            SendPhase::Next
                        };
                        if op.gap_ms > 0 {
                            op.gap_start = now;
                        }
                        match self.take_port(op.port.as_str()) {
                            None => {},
                            Some(p) => {
                                let mut p = p;
                                p.send.update(op.sent_bytes, op.chunks);
                                self.put_port(p);
                                assert(self@ =~= ports.insert(before.port, p@));
                            },
                        }
                        if op.gap_ms > 0 {
                            Next::Do(Io::Wait)
                        } else {
                            Next::Do(Io::Chunk)
                        }
                    },
                }
            },
            SendPhase::Gap => {
                if withdrawn {
                    self.send_end(op, SendEnd::Cancelled, now)
                } else if manager::is_over(op.gap_start, op.gap_ms, now) || late || closing {
                    op.phase = SendPhase::Next;
                    Next::Do(Io::Chunk)
                } else {
                    Next::Do(Io::Wait)
                }
            },
            _ => {
                match event {
                    IoEvent::Chunk(Err(e)) => self.send_fail(op, e),
                    IoEvent::Chunk(Ok(None)) => self.send_end(op, SendEnd::Completed, now),
                    IoEvent::Chunk(Ok(Some(c))) => {
                        if cancelled {
                            self.send_end(op, SendEnd::Cancelled, now)
                        } else if broken {
                            self.send_end(op, SendEnd::DeviceError, now)
                        } else if late {
                            self.send_end(op, SendEnd::DurationLimit, now)
                        } else {
                            let empty = c.len() == 0;
                            op.write = WriteOp::new(c);
                            op.phase = SendPhase::Writing;
                            if empty {
                                Next::Do(Io::Flush)
                            } else {
                                Next::Do(Io::Write)
                            }
                        }
                    },
                    _ => Next::Do(Io::Chunk),
                }
            },
        }
    }
}

/// A transfer that was cancelled writes no further chunk: it ends before the next one. If the
/// client withdrew its request, it ends in a pause, too.
pub proof fn law_cancel_stops(
    ports: Ports,
    op: SendView,
    event: EventView,
    withdrawn: bool,
    now: u128,
)
    requires
        op.phase == SendPhase::Gap && withdrawn || op.phase == SendPhase::Next && is_cancelled(
            ports,
            op,
            withdrawn,
        ) && event matches EventView::Chunk(Ok(Some(_))),
    ensures
        send_stepped(ports, op, event, withdrawn, now).next matches NextView::Done(o) && o.reason
            == "cancelled"@ && o.sent_bytes == op.sent_bytes && o.chunks == op.chunks,
{
}

/// A pause that the client does not end is followed by the next chunk, if there is one: a request to
/// cancel that comes in a pause counts only there, and one that comes after the last chunk comes
/// too late.
pub proof fn law_pause_goes_on(ports: Ports, op: SendView, event: EventView, now: u128)
    requires
        op.phase == SendPhase::Gap,
    ensures
        ({
            let s = send_stepped(ports, op, event, false, now);
            let over = pause_over(ports, op, now);
            &&& s.ports == ports
            &&& s.next == NextView::<SendFileOutcomeView>::Do(
                if over {
                    Io::Chunk
                } else {
                    Io::Wait
                },
            )
            &&& s.op == SendView {
                phase: if over {
                    SendPhase::Next
                } else {
                    SendPhase::Gap
                },
                ..op
            }
        }),
        forall|later: Ports, t: u128|
            (#[trigger] send_stepped(
                later,
                SendView { phase: SendPhase::Next, ..op },
                EventView::Chunk(Ok(None)),
                false,
                t,
            )).next matches NextView::Done(o) && o.reason == "completed"@,
{
}

/// Closing a port does not wait for a pause: the transfer asks for its next chunk at once, and ends
/// there.
pub proof fn law_close_cuts_the_pause(
    ports: Ports,
    op: SendView,
    event: EventView,
    chunk: Seq<u8>,
    now: u128,
)
    requires
        op.phase == SendPhase::Gap,
        ports.contains_key(op.port),
        ports[op.port].closing,
        ports[op.port].cancel,
    ensures
        ({
            let s = send_stepped(ports, op, event, false, now);
            &&& s.next == NextView::<SendFileOutcomeView>::Do(Io::Chunk)
            &&& send_stepped(
                s.ports,
                s.op,
                EventView::Chunk(Ok(Some(chunk))),
                false,
                now,
            ).next matches NextView::Done(o) && o.reason == "cancelled"@ && o.sent_bytes
                == op.sent_bytes && o.chunks == op.chunks
        }),
{
}

/// A transfer whose device is gone, or whose time is up, writes no further chunk either. What was
/// asked of it comes first, then the device, then the time.
pub proof fn law_stops_in_order(
    ports: Ports,
    op: SendView,
    chunk: Seq<u8>,
    withdrawn: bool,
    now: u128,
)
    requires
        op.phase == SendPhase::Next,
        !is_cancelled(ports, op, withdrawn),
        ports[op.port].read_error is Some || is_late(op, now),
    ensures
        send_stepped(
            ports,
            op,
            EventView::Chunk(Ok(Some(chunk))),
            withdrawn,
            now,
        ).next matches NextView::Done(o) && {
            &&& o.sent_bytes == op.sent_bytes
            &&& ports[op.port].read_error is Some ==> o.reason == "device_error"@ && o.device_error
                == ports[op.port].read_error
            &&& ports[op.port].read_error is None ==> o.reason == "duration_limit"@
        },
{
}

/// The status of the port shows how far a transfer has come.
pub open spec fn shown(ports: Ports, op: SendView) -> bool {
    &&& ports.contains_key(op.port)
    &&& ports[op.port].send.active == (op.phase != SendPhase::Over)
    &&& ports[op.port].send.sent_bytes == op.sent_bytes
    &&& ports[op.port].send.chunks == op.chunks
    &&& ports[op.port].send.total_bytes == op.total_bytes
}

/// The status of the port shows the progress of a transfer from its beginning to its end, and then
/// how it ended.
pub proof fn law_progress_is_shown(
    ports: Ports,
    op: SendView,
    event: EventView,
    withdrawn: bool,
    now: u128,
)
    requires
        shown(ports, op),
        op.phase != SendPhase::Over,
    ensures
        ({
            let s = send_stepped(ports, op, event, withdrawn, now);
            &&& shown(s.ports, s.op)
            &&& s.next is Do ==> s.op.phase != SendPhase::Over
            &&& s.next matches NextView::Done(o) ==> s.ports[op.port].send.last_reason == Some(
                o.reason,
            )
            &&& s.next is Fail ==> s.ports[op.port].send.last_reason == Some("error"@)
        }),
{
}

/// At its beginning, too, the status shows it.
pub proof fn law_progress_is_shown_at_first(
    ports: Ports,
    port: Seq<char>,
    total_bytes: u64,
    gap_ms: u64,
    max_duration_ms: Option<u64>,
    now: u128,
)
    requires
        ports.contains_key(port),
    ensures
        shown(
            ports.insert(port, port_begun(ports[port], total_bytes)),
            send_begun(ports[port], port, total_bytes, gap_ms, max_duration_ms, now),
        ),
{
}

/// A transfer counts as completed only when the file has no further chunk.
pub proof fn law_completed_means_no_more(
    ports: Ports,
    op: SendView,
    event: EventView,
    withdrawn: bool,
    now: u128,
)
    ensures
        send_stepped(ports, op, event, withdrawn, now).next matches NextView::Done(o) ==> (o.reason
            == "completed"@ ==> event == EventView::Chunk(Ok(None))),
{
    reveal_strlit("completed");
    reveal_strlit("cancelled");
    reveal_strlit("device_error");
    reveal_strlit("duration_limit");
    assert("completed"@[1] != "cancelled"@[1]);
    assert("completed"@[0] != "device_error"@[0]);
    assert("completed"@[0] != "duration_limit"@[0]);
}

/// A transfer has counted the chunks that it wrote, and their bytes.
pub open spec fn counts(op: SendView, written: Seq<Seq<u8>>) -> bool {
    &&& op.chunks == written.len()
    &&& op.sent_bytes == sendfile::total_len(written)
}

/// The counts of a transfer are those of the chunks that it wrote: a step that ends the write of a
/// chunk adds that chunk, and no other step changes them.
pub proof fn law_counts_are_kept(
    ports: Ports,
    op: SendView,
    event: EventView,
    withdrawn: bool,
    now: u128,
    written: Seq<Seq<u8>>,
)
    requires
        counts(op, written),
        op.phase == SendPhase::Writing ==> {
            &&& op.write.data.len() <= usize::MAX
            &&& op.sent_bytes + op.write.data.len() <= u64::MAX
            &&& op.chunks < u64::MAX
        },
    ensures
        ({
            let s = send_stepped(ports, op, event, withdrawn, now);
            if op.phase == SendPhase::Writing && io::write_next(op.write, event) is Done {
                counts(s.op, written.push(op.write.data))
            } else {
                &&& counts(s.op, written)
                &&& s.next matches NextView::Done(o) ==> o.chunks == written.len() && o.sent_bytes
                    == sendfile::total_len(written)
            }
        }),
{
    assert(written.push(op.write.data).drop_last() =~= written);
}

/// A transfer begins with nothing counted.
pub proof fn law_counts_begin(
    p: PortView,
    port: Seq<char>,
    total_bytes: u64,
    gap_ms: u64,
    max_duration_ms: Option<u64>,
    now: u128,
)
    ensures
        counts(send_begun(p, port, total_bytes, gap_ms, max_duration_ms, now), seq![]),
{
}

/// What a step of a transfer is given: the open ports at that moment, which other calls may have
/// changed, the event, whether the client withdrew its request, and the time.
pub struct SendInput {
    pub ports: Ports,
    pub event: EventView,
    pub withdrawn: bool,
    pub now: u128,
}

/// A transfer with its history.
pub struct Transfer {
    /// The transfer.
    pub op: SendView,
    /// How it goes on.
    pub next: NextView<SendFileOutcomeView>,
    /// The chunks that it was handed.
    pub handed: Seq<Seq<u8>>,
    /// The chunks that it wrote to the end.
    pub written: Seq<Seq<u8>>,
    /// The bytes that the port accepted.
    pub accepted: Seq<u8>,
}

/// A transfer that was just begun.
pub open spec fn transfer_begun(op: SendView) -> Transfer {
    Transfer {
        op,
        next: NextView::Do(Io::Chunk),
        handed: seq![],
        written: seq![],
        accepted: seq![],
    }
}

/// The bytes that an event says the port accepted of a transfer.
pub open spec fn accepted_of(op: SendView, event: EventView) -> Seq<u8> {
    match event {
        EventView::Wrote(Ok(n)) if op.phase == SendPhase::Writing && io::write_asks(op.write)
            == Io::Write => op.write.data.skip(op.write.written).take(n as int),
        _ => seq![],
    }
}

/// A transfer with its history, after a step.
pub open spec fn transfer_stepped(t: Transfer, i: SendInput) -> Transfer {
    let s = send_stepped(i.ports, t.op, i.event, i.withdrawn, i.now);
    Transfer {
        op: s.op,
        next: s.next,
        handed: match i.event {
            EventView::Chunk(Ok(Some(c))) => t.handed.push(c),
            _ => t.handed,
        },
        written: if t.op.phase == SendPhase::Writing && io::write_next(t.op.write, i.event) is Done {
            t.written.push(t.op.write.data)
        } else {
            t.written
        },
        accepted: t.accepted + accepted_of(t.op, i.event),
    }
}

/// A transfer with its history, after several steps.
pub open spec fn transfer(op: SendView, inputs: Seq<SendInput>) -> Transfer
    decreases inputs.len(),
{
    if inputs.len() == 0 {
        transfer_begun(op)
    } else {
        transfer_stepped(transfer(op, inputs.drop_last()), inputs.last())
    }
}

/// A step can be given this: the transfer goes on, chunks come when they are asked for and can be
/// counted, and the port accepts no more than it was offered.
pub open spec fn input_ok(op: SendView, event: EventView) -> bool {
    &&& op.phase != SendPhase::Over
    &&& event is Chunk ==> op.phase == SendPhase::Next
    &&& event matches EventView::Chunk(Ok(Some(c))) ==> {
        &&& c.len() <= usize::MAX
        &&& op.sent_bytes + c.len() <= u64::MAX
        &&& op.chunks < u64::MAX
    }
    &&& event matches EventView::Wrote(Ok(n)) ==> (op.phase == SendPhase::Writing
        && io::write_asks(op.write) == Io::Write ==> op.write.written + n <= op.write.data.len())
}

/// Several steps can be given these, one after the other.
pub open spec fn inputs_ok(op: SendView, inputs: Seq<SendInput>) -> bool
    decreases inputs.len(),
{
    inputs.len() > 0 ==> {
        &&& inputs_ok(op, inputs.drop_last())
        &&& input_ok(transfer(op, inputs.drop_last()).op, inputs.last().event)
    }
}

/// What holds of a transfer and its history as long as it goes on.
spec fn going(t: Transfer) -> bool {
    let w = t.op.write;
    &&& counts(t.op, t.written)
    &&& if t.op.phase == SendPhase::Writing {
        &&& t.handed == t.written.push(w.data)
        &&& t.accepted == sendfile::joined(t.written) + w.data.take(w.written)
        &&& 0 <= w.written <= w.data.len() <= usize::MAX
        &&& t.op.sent_bytes + w.data.len() <= u64::MAX
        &&& t.op.chunks < u64::MAX
    } else {
        &&& t.handed == t.written
        &&& t.accepted == sendfile::joined(t.written)
    }
}

/// What holds of a transfer and its history at any time, and at its end.
pub open spec fn transfer_sound(t: Transfer) -> bool {
    let counted = sendfile::joined(t.written);
    let all = sendfile::joined(t.handed);
    &&& counts(t.op, t.written)
    &&& t.written == t.handed.take(t.written.len() as int)
    &&& t.written.len() <= t.handed.len() <= t.written.len() + 1
    &&& counted.len() <= t.accepted.len() <= all.len()
    &&& t.accepted.take(counted.len() as int) == counted
    &&& all.take(t.accepted.len() as int) == t.accepted
    &&& t.next matches NextView::Done(o) ==> {
        &&& t.accepted == counted
        &&& o.chunks == t.written.len()
        &&& o.sent_bytes == t.accepted.len()
        &&& o.reason == "completed"@ ==> t.written == t.handed && t.accepted == all
    }
}

proof fn lemma_joined_push(pieces: Seq<Seq<u8>>, piece: Seq<u8>)
    ensures
        sendfile::joined(pieces.push(piece)) == sendfile::joined(pieces) + piece,
{
    assert(pieces.push(piece).drop_last() =~= pieces);
}

proof fn lemma_joined_len(pieces: Seq<Seq<u8>>)
    ensures
        sendfile::joined(pieces).len() == sendfile::total_len(pieces),
    decreases pieces.len(),
{
    if pieces.len() > 0 {
        lemma_joined_len(pieces.drop_last());
    }
}

proof fn lemma_going_step(t: Transfer, i: SendInput)
    requires
        going(t),
        input_ok(t.op, i.event),
    ensures
        ({
            let u = transfer_stepped(t, i);
            &&& u.op.phase != SendPhase::Over ==> going(u)
            &&& transfer_sound(u)
        }),
{
    let u = transfer_stepped(t, i);
    let w = t.op.write;
    let counted = sendfile::joined(t.written);
    law_counts_are_kept(i.ports, t.op, i.event, i.withdrawn, i.now, t.written);
    law_completed_means_no_more(i.ports, t.op, i.event, i.withdrawn, i.now);
    lemma_joined_len(t.written);
    if t.op.phase == SendPhase::Writing {
        lemma_joined_push(t.written, w.data);
        let x = io::write_stepped(w, i.event);
        assert(u.accepted =~= counted + w.data.take(x.written));
        assert(u.handed == t.handed);
        if io::write_next(w, i.event) is Done {
            assert(w.data.take(w.written) =~= w.data);
            assert(u.written == t.handed);
            assert(u.accepted =~= sendfile::joined(u.written));
        } else {
            assert(u.written == t.written);
        }
    } else {
        assert(u.accepted =~= counted);
        assert(u.written == t.written);
        match i.event {
            EventView::Chunk(Ok(Some(c))) => {
                lemma_joined_push(t.handed, c);
                assert(counted + c.take(0) =~= counted);
            },
            _ => {},
        }
    }
    let all = sendfile::joined(u.handed);
    assert(u.written =~= u.handed.take(u.written.len() as int));
    assert(u.accepted.take(sendfile::joined(u.written).len() as int) =~= sendfile::joined(u.written));
    assert(all.take(u.accepted.len() as int) =~= u.accepted);
}

proof fn lemma_going(
    p: PortView,
    port: Seq<char>,
    total_bytes: u64,
    gap_ms: u64,
    max_duration_ms: Option<u64>,
    begun: u128,
    inputs: Seq<SendInput>,
)
    requires
        inputs_ok(send_begun(p, port, total_bytes, gap_ms, max_duration_ms, begun), inputs),
    ensures
        ({
            let t = transfer(
                send_begun(p, port, total_bytes, gap_ms, max_duration_ms, begun),
                inputs,
            );
            &&& t.op.phase != SendPhase::Over ==> going(t)
            &&& transfer_sound(t)
        }),
    decreases inputs.len(),
{
    let op = send_begun(p, port, total_bytes, gap_ms, max_duration_ms, begun);
    if inputs.len() == 0 {
        let t = transfer(op, inputs);
        assert(t.written =~= t.handed.take(0));
        assert(t.accepted =~= sendfile::joined(t.written));
        assert(t.accepted.take(0) =~= t.accepted);
    } else {
        lemma_going(p, port, total_bytes, gap_ms, max_duration_ms, begun, inputs.drop_last());
        lemma_going_step(transfer(op, inputs.drop_last()), inputs.last());
    }
}

/// A whole transfer, whatever happens to the ports meanwhile: the port has accepted the chunks that
/// are counted, in order and complete, and beyond them at most the beginning of the next one. A
/// transfer that ends without failing has left no chunk half written, and reports what it wrote.
/// If it counts as completed, that is all it was handed.
pub proof fn law_transfer_is_sound(
    p: PortView,
    port: Seq<char>,
    total_bytes: u64,
    gap_ms: u64,
    max_duration_ms: Option<u64>,
    begun: u128,
    inputs: Seq<SendInput>,
)
    requires
        inputs_ok(send_begun(p, port, total_bytes, gap_ms, max_duration_ms, begun), inputs),
    ensures
        transfer_sound(
            transfer(send_begun(p, port, total_bytes, gap_ms, max_duration_ms, begun), inputs),
        ),
{
    lemma_going(p, port, total_bytes, gap_ms, max_duration_ms, begun, inputs);
}

/// A completed transfer of a file: if it was handed the chunks of the file, the port accepted
/// exactly what the file is sent as, and the transfer reports that many bytes and chunks.
pub proof fn law_completed_transfer_sends_the_file(
    p: PortView,
    port: Seq<char>,
    total_bytes: u64,
    gap_ms: u64,
    max_duration_ms: Option<u64>,
    begun: u128,
    inputs: Seq<SendInput>,
    path: Seq<char>,
    mode: sendfile::SendMode,
    chunk_size: int,
    reads: Seq<Seq<u8>>,
)
    requires
        inputs_ok(send_begun(p, port, total_bytes, gap_ms, max_duration_ms, begun), inputs),
        sendfile::reads_ok(sendfile::fresh(path, mode, chunk_size), reads),
        transfer(
            send_begun(p, port, total_bytes, gap_ms, max_duration_ms, begun),
            inputs,
        ).handed == sendfile::file_chunks(path, mode, chunk_size, reads),
    ensures
        ({
            let t = transfer(
                send_begun(p, port, total_bytes, gap_ms, max_duration_ms, begun),
                inputs,
            );
            let n = sendfile::joined(reads).len() as int;
            t.next matches NextView::Done(o) ==> (o.reason == "completed"@ ==> {
                &&& t.accepted == sendfile::wire(mode, sendfile::joined(reads))
                &&& o.sent_bytes == sendfile::sent_len(mode, n)
                &&& o.chunks == sendfile::chunk_count(mode, n, sendfile::at_least_one(chunk_size))
            })
        }),
{
    lemma_going(p, port, total_bytes, gap_ms, max_duration_ms, begun, inputs);
    sendfile::law_chunks_of_file(path, mode, chunk_size, reads);
    sendfile::law_sent_len(mode, sendfile::joined(reads));
}

/// How long a pause lasts: unless the client withdraws its request, a transfer in a pause asks for
/// its next chunk as soon as `gap_ms` milliseconds have passed since the last chunk was written, or
/// `max_duration_ms` since it began, or the port is to be closed; and else it waits.
pub proof fn law_pause_lasts_as_asked(
    ports: Ports,
    op: SendView,
    event: EventView,
    withdrawn: bool,
    now: u128,
)
    requires
        op.phase == SendPhase::Gap,
        0 < op.gap_ms,
    ensures
        ({
            let s = send_stepped(ports, op, event, withdrawn, now);
            let over = now - op.gap_start >= op.gap_ms * 1_000_000;
            let late = op.max_duration_ms matches Some(ms) && (ms == 0 || now - op.started >= ms
                * 1_000_000);
            let closing = ports.contains_key(op.port) && ports[op.port].closing;
            if withdrawn {
                s.next matches NextView::Done(o) && o.reason == "cancelled"@
            } else if over || late || closing {
                &&& s.next matches NextView::Do(io) && io == Io::Chunk
                &&& s.op.phase == SendPhase::Next
                &&& s.ports == ports
            } else {
                &&& s.next matches NextView::Do(io) && io == Io::Wait
                &&& s.op == op
                &&& s.ports == ports
            }
        }),
{
}

/// What happens before a chunk is written. A transfer that was cancelled, whose client withdrew its
/// request or whose port is gone ends as cancelled; one whose reader has failed, with that error;
/// one that has lasted `max_duration_ms`, at its limit, in this order. Any other begins to write
/// the whole chunk.
pub proof fn law_checkpoint(
    ports: Ports,
    op: SendView,
    chunk: Seq<u8>,
    withdrawn: bool,
    now: u128,
)
    requires
        op.phase == SendPhase::Next,
    ensures
        ({
            let s = send_stepped(ports, op, EventView::Chunk(Ok(Some(chunk))), withdrawn, now);
            let late = op.max_duration_ms matches Some(ms) && (ms == 0 || now - op.started >= ms
                * 1_000_000);
            if withdrawn || !ports.contains_key(op.port) || ports[op.port].cancel {
                s.next matches NextView::Done(o) && o.reason == "cancelled"@ && o.device_error is None
            } else if ports[op.port].read_error is Some {
                s.next matches NextView::Done(o) && o.reason == "device_error"@ && o.device_error
                    == ports[op.port].read_error
            } else if late {
                s.next matches NextView::Done(o) && o.reason == "duration_limit"@ && o.device_error
                    is None
            } else {
                &&& s.ports == ports
                &&& s.op.phase == SendPhase::Writing
                &&& s.op.write.data == chunk
                &&& s.op.write.written == 0
                &&& s.op == (SendView { phase: s.op.phase, write: s.op.write, ..op })
                &&& s.next matches NextView::Do(io) && (io == Io::Write) == (chunk.len() > 0) && (io
                    == Io::Flush) == (chunk.len() == 0)
            }
        }),
{
}

/// A transfer that has no further chunk is completed; one whose file cannot be read fails with that
/// error, and tells how far it came; one that was not given what it asked for asks again.
pub proof fn law_no_chunk_to_write(
    ports: Ports,
    op: SendView,
    e: Seq<char>,
    withdrawn: bool,
    now: u128,
)
    requires
        op.phase == SendPhase::Next,
    ensures
        send_stepped(ports, op, EventView::Chunk(Ok(None)), withdrawn, now).next
            matches NextView::Done(o) && o.reason == "completed"@ && o.device_error is None,
        send_stepped(ports, op, EventView::Chunk(Err(e)), withdrawn, now).next
            matches NextView::Fail(m) && m == e + ("（已发送 "@ + text::decimal(op.sent_bytes as nat)
            + " 字节 / "@ + text::decimal(op.chunks as nat) + " 片）"@),
        send_stepped(ports, op, EventView::Woke, withdrawn, now).next matches NextView::Do(io) && io
            == Io::Chunk,
        send_stepped(ports, op, EventView::Woke, withdrawn, now).op == op,
        send_stepped(ports, op, EventView::Woke, withdrawn, now).ports == ports,
{
}

/// What a transfer that has ended reports: the size of the file, how much was written, how long it
/// took in whole milliseconds, and how many received bytes were lost meanwhile.
pub proof fn law_outcome_adds_up(
    ports: Ports,
    op: SendView,
    event: EventView,
    withdrawn: bool,
    now: u128,
)
    requires
        op.phase != SendPhase::Writing,
        op.started <= now,
        now - op.started < 0x1_0000_0000_0000_0000,
    ensures
        send_stepped(ports, op, event, withdrawn, now).next matches NextView::Done(o) ==> {
            &&& o.raw_bytes == op.total_bytes
            &&& o.sent_bytes == op.sent_bytes
            &&& o.chunks == op.chunks
            &&& o.elapsed_ms * 1_000_000 <= now - op.started < (o.elapsed_ms + 1) * 1_000_000
            &&& ports.contains_key(op.port) ==> o.overflow_total
                == ports[op.port].buffer.overflow_total
            &&& ports.contains_key(op.port) && op.overflow_before
                <= ports[op.port].buffer.overflow_total ==> o.overflow_delta
                == ports[op.port].buffer.overflow_total - op.overflow_before
            &&& !ports.contains_key(op.port) ==> o.overflow_total == op.overflow_before
                && o.overflow_delta == 0
        },
{
}

/// A transfer that has ended is recorded with its port: it is not active any more, how it ended,
/// and how far it came. Nothing else changes.
pub proof fn law_end_is_recorded(
    ports: Ports,
    op: SendView,
    event: EventView,
    withdrawn: bool,
    now: u128,
)
    requires
        op.phase != SendPhase::Over,
    ensures
        ({
            let s = send_stepped(ports, op, event, withdrawn, now);
            &&& !(s.next is Do) ==> s.op.phase == SendPhase::Over
            &&& !(s.next is Do) && !ports.contains_key(op.port) ==> s.ports == ports
            &&& !(s.next is Do) && ports.contains_key(op.port) ==> {
                let p = ports[op.port];
                let q = s.ports[op.port];
                &&& s.ports == ports.insert(op.port, q)
                &&& q == (PortView { send: q.send, ..p })
                &&& !q.send.active
                &&& q.send.sent_bytes == op.sent_bytes
                &&& q.send.chunks == op.chunks
                &&& q.send.total_bytes == p.send.total_bytes
                &&& s.next matches NextView::Done(o) ==> q.send.last_reason == Some(o.reason)
                &&& s.next is Fail ==> q.send.last_reason == Some("error"@)
            }
        }),
{
}

/// A chunk that is being written is written like any other data. When the port has accepted all of
/// it and was flushed, it is counted, with its bytes, and the progress is recorded; then comes the
/// pause, if there is one, from this moment on, and else the next chunk. A write that fails ends
/// the transfer, and the message tells how far it came.
pub proof fn law_chunk_is_written_whole(
    ports: Ports,
    op: SendView,
    event: EventView,
    withdrawn: bool,
    now: u128,
)
    requires
        op.phase == SendPhase::Writing,
        0 <= op.write.written <= op.write.data.len() <= usize::MAX,
        op.sent_bytes + op.write.data.len() <= u64::MAX,
        op.chunks < u64::MAX,
    ensures
        ({
            let s = send_stepped(ports, op, event, withdrawn, now);
            if op.write.written == op.write.data.len() && (event matches EventView::Flushed(Ok(_))) {
                &&& s.op.sent_bytes == op.sent_bytes + op.write.data.len()
                &&& s.op.chunks == op.chunks + 1
                &&& op.gap_ms > 0 ==> s.op.phase == SendPhase::Gap && s.op.gap_start == now && (
                s.next matches NextView::Do(io) && io == Io::Wait)
                &&& op.gap_ms == 0 ==> s.op.phase == SendPhase::Next && s.op.gap_start
                    == op.gap_start && (
                s.next matches NextView::Do(io) && io == Io::Chunk)
                &&& s.op == (SendView {
                    sent_bytes: s.op.sent_bytes,
                    chunks: s.op.chunks,
                    phase: s.op.phase,
                    gap_start: s.op.gap_start,
                    ..op
                })
                &&& !ports.contains_key(op.port) ==> s.ports == ports
                &&& ports.contains_key(op.port) ==> {
                    let p = ports[op.port];
                    let q = s.ports[op.port];
                    &&& s.ports == ports.insert(op.port, q)
                    &&& q == (PortView { send: q.send, ..p })
                    &&& q.send == (ProgressView {
                        sent_bytes: s.op.sent_bytes,
                        chunks: s.op.chunks,
                        ..p.send
                    })
                }
            } else {
                match io::write_next(op.write, event) {
                    NextView::Do(io) => {
                        &&& s.next matches NextView::Do(x) && x == io
                        &&& s.ports == ports
                        &&& s.op == (SendView { write: io::write_stepped(op.write, event), ..op })
                    },
                    NextView::Fail(e) => s.next matches NextView::Fail(m) && m == "写入失败: "@ + e + (
                    "（已发送 "@ + text::decimal(op.sent_bytes as nat) + " 字节 / "@ + text::decimal(
                        op.chunks as nat,
                    ) + " 片）"@),
                    NextView::Done(_) => false,
                }
            }
        }),
{
}

/// A transfer begins with what it was asked for, with nothing counted, and asks for its first chunk.
/// The status of its port shows it, and an earlier request to cancel is forgotten.
pub proof fn law_transfer_begins_as_asked(
    p: PortView,
    port: Seq<char>,
    total_bytes: u64,
    gap_ms: u64,
    max_duration_ms: Option<u64>,
    now: u128,
)
    ensures
        ({
            let op = send_begun(p, port, total_bytes, gap_ms, max_duration_ms, now);
            &&& op.port == port
            &&& op.total_bytes == total_bytes
            &&& op.gap_ms == gap_ms
            &&& op.max_duration_ms == max_duration_ms
            &&& op.started == now
            &&& op.overflow_before == p.buffer.overflow_total
            &&& op.sent_bytes == 0
            &&& op.chunks == 0
            &&& op.phase == SendPhase::Next
        }),
        ({
            let q = port_begun(p, total_bytes);
            &&& q == (PortView { send: q.send, cancel: false, ..p })
            &&& q.send.active
            &&& q.send.last_reason is None
            &&& q.send.sent_bytes == 0
            &&& q.send.total_bytes == total_bytes
            &&& q.send.chunks == 0
        }),
{
}

}
