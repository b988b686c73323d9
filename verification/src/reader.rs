//! What the reader of a port does: it waits until the device has bytes, and moves them into the
//! port's buffer until the device has none.
//!
//! The caller waits, asks the device and reads it; each step says what to do next. A request to
//! stop ends the reader at the next opportunity. A failure of the device ends it for good.

use vstd::prelude::*;

use crate::io;

verus! {

/// How many bytes are read at once, at most.
pub const READ_CHUNK: usize = 4096;

/// Why a read of the device failed.
#[derive(Debug, Clone, Copy, PartialEq, Eq, Structural)]
pub enum ReadFault {
    /// No byte came in time.
    TimedOut,
    /// No byte is there.
    WouldBlock,
    /// Something else.
    Other,
}

/// What came of what the reader was to do.
#[derive(Debug)]
pub enum ReaderEvent {
    /// The reader begins.
    Begun,
    /// The wait is over: the device may have bytes, or the reader was woken to stop.
    Waited(Result<bool, String>),
    /// How many bytes the device has.
    Queried(Result<u32, String>),
    /// How many bytes were read.
    Read(Result<usize, (ReadFault, String)>),
    /// The bytes are in the buffer.
    Kept,
}

/// What the reader is to do next.
#[derive(Debug)]
pub enum ReaderAction {
    /// Wait for the device.
    Wait,
    /// Ask the device how many bytes it has.
    Query,
    /// Read the device.
    Read,
    /// Put so many bytes into the buffer.
    Keep(usize),
    /// Nothing more: it was asked to stop.
    Stopped,
    /// Nothing more: the device failed, with the message.
    Failed(String),
}

/// The reader waits, unless it is to stop.
pub open spec fn waits(action: ReaderAction, stop: bool) -> bool {
    if stop {
        action is Stopped
    } else {
        action is Wait
    }
}

/// The reader asks the device, unless it is to stop.
pub open spec fn queries(action: ReaderAction, stop: bool) -> bool {
    if stop {
        action is Stopped
    } else {
        action is Query
    }
}

/// What the reader does after an event.
pub open spec fn action_is(event: ReaderEvent, stop: bool, action: ReaderAction) -> bool {
    match event {
        ReaderEvent::Begun => waits(action, stop),
        ReaderEvent::Waited(Ok(true)) => queries(action, stop),
        ReaderEvent::Waited(Ok(false)) => waits(action, stop),
        ReaderEvent::Waited(Err(e)) => action matches ReaderAction::Failed(m) && m@
            == "等待串口事件失败: "@ + e@,
        ReaderEvent::Queried(Ok(n)) => if n == 0 {
            waits(action, stop)
        } else {
            action is Read
        },
        ReaderEvent::Queried(Err(e)) => action matches ReaderAction::Failed(m) && m@
            == io::query_failed(e@),
        ReaderEvent::Read(Ok(n)) => if n == 0 {
            waits(action, stop)
        } else {
            action == ReaderAction::Keep(n)
        },
        ReaderEvent::Read(Err((fault, e))) => if fault == ReadFault::Other {
            action matches ReaderAction::Failed(m) && m@ == "读取串口失败: "@ + e@
        } else {
            waits(action, stop)
        },
        ReaderEvent::Kept => queries(action, stop),
    }
}

/// Says what the reader does next.
pub fn next_action(event: ReaderEvent, stop: bool) -> (r: ReaderAction)
    ensures
        action_is(event, stop, r),
{
    let drain = match event {
        ReaderEvent::Begun => false,
        ReaderEvent::Waited(Ok(ready)) => ready,
        ReaderEvent::Waited(Err(e)) => {
            return ReaderAction::Failed(io::caused("等待串口事件失败: ", e.as_str()));
        },
        ReaderEvent::Queried(Ok(n)) => {
            if n > 0 {
                return ReaderAction::Read;
            }
            false
        },
        ReaderEvent::Queried(Err(e)) => {
            return ReaderAction::Failed(io::caused("查询串口可读字节数失败: ", e.as_str()));
        },
        ReaderEvent::Read(Ok(n)) => {
            if n > 0 {
                return ReaderAction::Keep(n);
            }
            false
        },
        ReaderEvent::Read(Err((fault, e))) => {
            match fault {
                ReadFault::Other => {
                    return ReaderAction::Failed(io::caused("读取串口失败: ", e.as_str()));
                },
                _ => {},
            }
            false
        },
        ReaderEvent::Kept => true,
    };
    if stop {
        ReaderAction::Stopped
    } else if drain {
        ReaderAction::Query
    } else {
        ReaderAction::Wait
    }
}

/// What a wait on several handles said of one of them.
#[derive(Debug, Clone, Copy, PartialEq, Eq, Structural)]
pub struct Readiness {
    /// It can be read.
    pub readable: bool,
    /// Its other end is gone.
    pub hung_up: bool,
    /// It is no open handle.
    pub invalid: bool,
}

/// What a wait on a device and on the handle that wakes the reader means.
#[derive(Debug, Clone, Copy, PartialEq, Eq, Structural)]
pub enum WaitVerdict {
    /// The device may have bytes.
    Ready,
    /// The reader was woken to stop.
    Woken,
    /// The device is gone.
    Gone,
}

/// What a wait means: a request to stop comes first, bytes that are there come before the end of
/// the device.
pub open spec fn verdict(device: Readiness, wake: Readiness) -> WaitVerdict {
    if wake.readable || wake.hung_up {
        WaitVerdict::Woken
    } else if device.readable {
        WaitVerdict::Ready
    } else if device.hung_up || device.invalid {
        WaitVerdict::Gone
    } else {
        WaitVerdict::Ready
    }
}

/// Judges a wait.
pub fn judge_wait(device: Readiness, wake: Readiness) -> (r: WaitVerdict)
    ensures
        r == verdict(device, wake),
{
    if wake.readable || wake.hung_up {
        return WaitVerdict::Woken;
    }
    if device.readable {
        return WaitVerdict::Ready;
    }
    if device.hung_up || device.invalid {
        return WaitVerdict::Gone;
    }
    WaitVerdict::Ready
}

/// How many readers need the finer timer of the system: the first one switches it on, the last one
/// off.
#[derive(Debug)]
pub struct TimerCount {
    count: u32,
}

impl View for TimerCount {
    type V = int;

    closed spec fn view(&self) -> int {
        self.count as int
    }
}

impl TimerCount {
    /// No reader.
    pub fn new() -> (r: Self)
        ensures
            r@ == 0,
    {
        TimerCount { count: 0 }
    }

    /// How many readers there are.
    pub fn readers(&self) -> (r: u32)
        ensures
            r == self@,
    {
        self.count
    }

    /// One reader more. Says whether the timer is to be switched on.
    pub fn acquire(&mut self) -> (r: bool)
        requires
            old(self)@ < u32::MAX,
        ensures
            final(self)@ == old(self)@ + 1,
            r == (old(self)@ == 0),
    {
        let first = self.count == 0;
        self.count = self.count + 1;
        first
    }

    /// One reader less. Says whether the timer is to be switched off.
    pub fn release(&mut self) -> (r: bool)
        requires
            0 < old(self)@,
        ensures
            final(self)@ == old(self)@ - 1,
            r == (final(self)@ == 0),
    {
        self.count = self.count - 1;
        self.count == 0
    }
}

/// No byte that was read is dropped: it goes into the buffer even if the reader is to stop.
pub proof fn law_reader_keeps_bytes(n: usize, stop: bool, action: ReaderAction)
    requires
        0 < n,
        action_is(ReaderEvent::Read(Ok(n)), stop, action),
    ensures
        action == ReaderAction::Keep(n),
{
}

/// A reader that is to stop does not wait again, and does not begin to drain the device again.
pub proof fn law_reader_stops(event: ReaderEvent, action: ReaderAction)
    requires
        action_is(event, true, action),
    ensures
        !(action is Wait),
        !(action is Query),
{
}

/// The device is read only after it said that it has bytes.
pub proof fn law_reader_reads_what_is_there(event: ReaderEvent, stop: bool, action: ReaderAction)
    requires
        action_is(event, stop, action),
        action is Read,
    ensures
        event matches ReaderEvent::Queried(Ok(n)) && n > 0,
{
}

/// What a reader does, unless it is to stop: it waits at first, asks the device when a wait is over,
/// reads if the device has bytes, keeps what was read and asks again, and waits when the device has
/// none. A reader that is to stop does so where it would wait or ask.
pub proof fn law_reader_goes_on(n: u32, k: usize, fault: ReadFault, e: String, stop: bool)
    requires
        0 < n,
        0 < k,
        fault != ReadFault::Other,
    ensures
        forall|a: ReaderAction| #[trigger]
            action_is(ReaderEvent::Begun, stop, a) ==> (a is Stopped == stop && a is Wait == !stop),
        forall|a: ReaderAction| #[trigger]
            action_is(ReaderEvent::Waited(Ok(true)), stop, a) ==> (a is Stopped == stop && a is Query
                == !stop),
        forall|a: ReaderAction| #[trigger]
            action_is(ReaderEvent::Waited(Ok(false)), stop, a) ==> (a is Stopped == stop && a is Wait
                == !stop),
        forall|a: ReaderAction| #[trigger]
            action_is(ReaderEvent::Queried(Ok(0)), stop, a) ==> (a is Stopped == stop && a is Wait
                == !stop),
        forall|a: ReaderAction| #[trigger]
            action_is(ReaderEvent::Queried(Ok(n)), stop, a) ==> a is Read,
        forall|a: ReaderAction| #[trigger]
            action_is(ReaderEvent::Read(Ok(0)), stop, a) ==> (a is Stopped == stop && a is Wait
                == !stop),
        forall|a: ReaderAction| #[trigger]
            action_is(ReaderEvent::Read(Ok(k)), stop, a) ==> a == ReaderAction::Keep(k),
        forall|a: ReaderAction| #[trigger]
            action_is(ReaderEvent::Read(Err((fault, e))), stop, a) ==> (a is Stopped == stop && a
                is Wait == !stop),
        forall|a: ReaderAction| #[trigger]
            action_is(ReaderEvent::Kept, stop, a) ==> (a is Stopped == stop && a is Query == !stop),
{
}

/// A failure ends the reader, and the message tells what failed; only a failure does.
pub proof fn law_reader_fails(event: ReaderEvent, stop: bool, action: ReaderAction)
    requires
        action_is(event, stop, action),
    ensures
        action is Failed == (match event {
            ReaderEvent::Waited(Err(_)) => true,
            ReaderEvent::Queried(Err(_)) => true,
            ReaderEvent::Read(Err((fault, _))) => fault == ReadFault::Other,
            _ => false,
        }),
        action matches ReaderAction::Failed(m) ==> {
            &&& event matches ReaderEvent::Waited(Err(e)) ==> m@ == "等待串口事件失败: "@ + e@
            &&& event matches ReaderEvent::Queried(Err(e)) ==> m@ == "查询串口可读字节数失败: "@ + e@
            &&& event matches ReaderEvent::Read(Err((_, e))) ==> m@ == "读取串口失败: "@ + e@
        },
{
}

/// What a wait means: the reader is woken if the handle for that can be read or is closed. Else the
/// device is gone exactly if it cannot be read, and its other end or the handle itself is gone; in
/// all other cases it is looked at.
pub proof fn law_wait_is_judged(device: Readiness, wake: Readiness)
    ensures
        (verdict(device, wake) == WaitVerdict::Woken) == (wake.readable || wake.hung_up),
        (verdict(device, wake) == WaitVerdict::Gone) == (!wake.readable && !wake.hung_up
            && !device.readable && (device.hung_up || device.invalid)),
        (verdict(device, wake) == WaitVerdict::Ready) == (!wake.readable && !wake.hung_up && (
        device.readable || !device.hung_up && !device.invalid)),
{
}

}
