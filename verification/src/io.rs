//! Operations on a port as step functions.
//!
//! An operation never touches the device. A step says what the caller is to do next: write, flush,
//! ask the driver, get a chunk of a file, or wait. The caller does it and hands what came of it to
//! the next step.

use vstd::prelude::*;
use vstd::slice::slice_subrange;
use vstd::string::StringExecFns;

verus! {

/// What the caller is to do next.
#[derive(Debug, Clone, Copy, PartialEq, Eq, Structural)]
pub enum Io {
    /// Write the rest of the data to the port.
    Write,
    /// Flush the port.
    Flush,
    /// Ask the driver how many bytes are ready to be read.
    Query,
    /// Wait for new bytes, for a short while at most.
    Wait,
    /// Get the next chunk of the file.
    Chunk,
}

/// What came of it.
#[derive(Debug)]
pub enum IoEvent {
    /// The operation begins, or the wait is over.
    Woke,
    /// How many bytes the port accepted.
    Wrote(Result<usize, String>),
    /// Whether the flush succeeded.
    Flushed(Result<(), String>),
    /// How many bytes are ready to be read.
    Queried(Result<u32, String>),
    /// The next chunk of the file, if there is one.
    Chunk(Result<Option<Vec<u8>>, String>),
}

/// How an operation goes on.
#[derive(Debug)]
pub enum Next<T> {
    /// The caller is to do something.
    Do(Io),
    /// The operation is over.
    Done(T),
    /// The operation failed, with the message.
    Fail(String),
}

/// An event as values.
pub enum EventView {
    Woke,
    Wrote(Result<usize, Seq<char>>),
    Flushed(Result<(), Seq<char>>),
    Queried(Result<u32, Seq<char>>),
    Chunk(Result<Option<Seq<u8>>, Seq<char>>),
}

impl View for IoEvent {
    type V = EventView;

    open spec fn view(&self) -> EventView {
        match *self {
            IoEvent::Woke => EventView::Woke,
            IoEvent::Wrote(Ok(n)) => EventView::Wrote(Ok(n)),
            IoEvent::Wrote(Err(e)) => EventView::Wrote(Err(e@)),
            IoEvent::Flushed(Ok(_)) => EventView::Flushed(Ok(())),
            IoEvent::Flushed(Err(e)) => EventView::Flushed(Err(e@)),
            IoEvent::Queried(Ok(n)) => EventView::Queried(Ok(n)),
            IoEvent::Queried(Err(e)) => EventView::Queried(Err(e@)),
            IoEvent::Chunk(Ok(Some(c))) => EventView::Chunk(Ok(Some(c@))),
            IoEvent::Chunk(Ok(None)) => EventView::Chunk(Ok(None)),
            IoEvent::Chunk(Err(e)) => EventView::Chunk(Err(e@)),
        }
    }
}

/// How an operation goes on, as values.
pub enum NextView<V> {
    Do(Io),
    Done(V),
    Fail(Seq<char>),
}

impl<T: View> View for Next<T> {
    type V = NextView<T::V>;

    open spec fn view(&self) -> NextView<T::V> {
        match *self {
            Next::Do(io) => NextView::Do(io),
            Next::Done(t) => NextView::Done(t@),
            Next::Fail(e) => NextView::Fail(e@),
        }
    }
}

/// The message for a write that failed.
pub open spec fn write_failed(e: Seq<char>) -> Seq<char> {
    "写入失败: "@ + e
}

/// The message for a flush that failed.
pub open spec fn flush_failed(e: Seq<char>) -> Seq<char> {
    "flush 失败: "@ + e
}

/// The message for a driver that cannot say how many bytes are ready.
pub open spec fn query_failed(e: Seq<char>) -> Seq<char> {
    "查询串口可读字节数失败: "@ + e
}

/// The words for a port that accepts nothing.
pub open spec fn nothing_accepted() -> Seq<char> {
    "串口未接受任何字节"@
}

/// Puts a message together from its beginning and the error that caused it.
pub(crate) fn caused(what: &str, e: &str) -> (r: String)
    ensures
        r@ == what@ + e@,
{
    let mut out = what.to_owned();
    out.append(e);
    out
}

/// The state of a write.
#[verifier::ext_equal]
pub struct WriteView {
    /// All that is to be written.
    pub data: Seq<u8>,
    /// How many bytes the port has accepted.
    pub written: int,
}

/// A write at its beginning.
pub open spec fn write_of(data: Seq<u8>) -> WriteView {
    WriteView { data, written: 0 }
}

/// What a write asks for: it writes until everything was accepted, and then flushes.
pub open spec fn write_asks(v: WriteView) -> Io {
    if v.written < v.data.len() {
        Io::Write
    } else {
        Io::Flush
    }
}

/// The number of bytes that an event says were accepted can have been: they were offered.
pub open spec fn accepts_no_more(event: IoEvent, rest: int) -> bool {
    event matches IoEvent::Wrote(Ok(n)) ==> n <= rest
}

/// A write after an event. An event that was not asked for changes nothing.
pub open spec fn write_stepped(v: WriteView, event: EventView) -> WriteView {
    match event {
        EventView::Wrote(Ok(n)) => if write_asks(v) == Io::Write {
            WriteView { written: v.written + n, ..v }
        } else {
            v
        },
        _ => v,
    }
}

/// How a write goes on after an event.
pub open spec fn write_next(v: WriteView, event: EventView) -> NextView<usize> {
    let w = write_stepped(v, event);
    match event {
        EventView::Wrote(Err(e)) if write_asks(v) == Io::Write => NextView::Fail(write_failed(e)),
        EventView::Wrote(Ok(n)) if write_asks(v) == Io::Write && n == 0 => NextView::Fail(
            write_failed(nothing_accepted()),
        ),
        EventView::Flushed(Err(e)) if write_asks(v) == Io::Flush => NextView::Fail(flush_failed(e)),
        EventView::Flushed(Ok(_)) if write_asks(v) == Io::Flush => NextView::Done(
            v.data.len() as usize,
        ),
        _ => NextView::Do(write_asks(w)),
    }
}

/// Writes data to a port, piece by piece as the port accepts it, and flushes.
#[derive(Debug)]
pub struct WriteOp {
    data: Vec<u8>,
    written: usize,
}

impl View for WriteOp {
    type V = WriteView;

    closed spec fn view(&self) -> WriteView {
        WriteView { data: self.data@, written: self.written as int }
    }
}

impl WriteOp {
    /// The state is valid: no more was accepted than there is.
    pub closed spec fn wf(&self) -> bool {
        self.written <= self.data@.len()
    }

    /// What validity means.
    pub proof fn law_accepted(&self)
        requires
            self.wf(),
        ensures
            0 <= self@.written <= self@.data.len() <= usize::MAX,
    {
        assert(self.data.len() == self.data@.len());
    }

    /// Begins to write.
    pub fn new(data: Vec<u8>) -> (r: Self)
        ensures
            r.wf(),
            r@ == write_of(data@),
    {
        WriteOp { data, written: 0 }
    }

    /// What is still to be written.
    pub fn rest(&self) -> (r: &[u8])
        requires
            self.wf(),
        ensures
            r@ == self@.data.skip(self@.written),
    {
        let r = slice_subrange(self.data.as_slice(), self.written, self.data.len());
        assert(r@ =~= self@.data.skip(self@.written));
        r
    }

    /// Takes an event, and says how the write goes on.
    pub fn step(&mut self, event: IoEvent) -> (r: Next<usize>)
        requires
            old(self).wf(),
            write_asks(old(self)@) == Io::Write ==> accepts_no_more(
                event,
                old(self)@.data.len() - old(self)@.written,
            ),
        ensures
            final(self).wf(),
            final(self)@ == write_stepped(old(self)@, event@),
            r@ == write_next(old(self)@, event@),
    {
        let writing = self.written < self.data.len();
        match event {
            IoEvent::Wrote(r) => {
                if writing {
                    match r {
                        Err(e) => {
                            return Next::Fail(caused("写入失败: ", e.as_str()));
                        },
                        Ok(n) => {
                            if n == 0 {
                                return Next::Fail(caused("写入失败: ", "串口未接受任何字节"));
                            }
                            self.written = self.written + n;
                        },
                    }
                }
            },
            IoEvent::Flushed(r) => {
                if !writing {
                    match r {
                        Err(e) => {
                            return Next::Fail(caused("flush 失败: ", e.as_str()));
                        },
                        Ok(_) => {
                            return Next::Done(self.data.len());
                        },
                    }
                }
            },
            _ => {},
        }
        if self.written < self.data.len() {
            Next::Do(Io::Write)
        } else {
            Next::Do(Io::Flush)
        }
    }
}

/// What the port was given, in order, is the data and nothing else: each piece that it accepts
/// follows the one before.
pub proof fn law_write_in_order(v: WriteView, n: usize)
    requires
        0 <= v.written,
        v.written + n <= v.data.len(),
        write_asks(v) == Io::Write,
    ensures
        ({
            let w = write_stepped(v, EventView::Wrote(Ok(n)));
            w.data.take(w.written) == v.data.take(v.written) + v.data.skip(v.written).take(n as int)
        }),
{
    let w = write_stepped(v, EventView::Wrote(Ok(n)));
    assert(w.data.take(w.written) =~= v.data.take(v.written) + v.data.skip(v.written).take(
        n as int,
    ));
}

/// A write that is done has written everything, and reports its length.
pub proof fn law_write_done(v: WriteView, event: EventView)
    requires
        0 <= v.written <= v.data.len() <= usize::MAX,
        write_next(v, event) is Done,
    ensures
        v.data.take(v.written) == v.data,
        write_next(v, event)->Done_0 == v.data.len(),
{
    assert(v.data.take(v.written) =~= v.data);
}

/// What becomes of a write. Bytes that the port accepts are behind it, and it goes on with the rest;
/// when everything was accepted, it flushes; when that is done, it reports its length. A port that
/// accepts nothing, or fails, ends it with a message. What was not asked for changes nothing.
pub proof fn law_write_goes_on(v: WriteView, n: usize, e: Seq<char>, data: Seq<u8>)
    requires
        0 <= v.written <= v.data.len() <= usize::MAX,
    ensures
        write_of(data).data == data && write_of(data).written == 0,
        v.written < v.data.len() ==> write_asks(v) == Io::Write,
        v.written == v.data.len() ==> write_asks(v) == Io::Flush,
        v.written < v.data.len() && 0 < n <= v.data.len() - v.written ==> {
            let w = write_stepped(v, EventView::Wrote(Ok(n)));
            &&& w.data == v.data
            &&& w.written == v.written + n
            &&& write_next(v, EventView::Wrote(Ok(n))) matches NextView::Do(io) && (io == Io::Write)
                == (v.written + n < v.data.len()) && (io == Io::Flush) == (v.written + n
                == v.data.len())
        },
        v.written < v.data.len() ==> (write_next(v, EventView::Wrote(Ok(0))) matches NextView::Fail(m)
            && m == "写入失败: "@ + "串口未接受任何字节"@),
        v.written < v.data.len() ==> (write_next(v, EventView::Wrote(Err(e))) matches NextView::Fail(
            m,
        ) && m == "写入失败: "@ + e),
        v.written == v.data.len() ==> (write_next(v, EventView::Flushed(Ok(())))
            matches NextView::Done(k) && k == v.data.len()),
        v.written == v.data.len() ==> (write_next(v, EventView::Flushed(Err(e)))
            matches NextView::Fail(m) && m == "flush 失败: "@ + e),
        v.written < v.data.len() ==> (write_next(v, EventView::Flushed(Ok(())))
            matches NextView::Do(io) && io == Io::Write),
        write_stepped(v, EventView::Flushed(Ok(()))) == v,
        write_stepped(v, EventView::Woke) == v,
        v.written < v.data.len() ==> (write_next(v, EventView::Woke) matches NextView::Do(io) && io
            == Io::Write),
        v.written == v.data.len() ==> (write_next(v, EventView::Woke) matches NextView::Do(io) && io
            == Io::Flush),
{
}

/// A port can accept at most what it was offered; any other event can come at any time.
pub proof fn law_accepted_was_offered(event: IoEvent, rest: int)
    ensures
        event matches IoEvent::Wrote(Ok(n)) ==> accepts_no_more(event, rest) == (n <= rest),
        !(event matches IoEvent::Wrote(Ok(_))) ==> accepts_no_more(event, rest),
{
}

}
