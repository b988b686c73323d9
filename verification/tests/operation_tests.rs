use ser2mcp::expect::ExpectOp;
use ser2mcp::io::{Io, IoEvent, Next, WriteOp};
use ser2mcp::manager::{
    DataBits, ExpectOutcome, ExpectReason, FlowControl, MatchScope, Parity, ReadReason,
    SendFileOutcome, SerialManager, StopBits,
};
use ser2mcp::read::{ExchangeOp, ReadOp};
use ser2mcp::send::SendOp;
use ser2mcp::sendfile::{ChunkIter, SendMode, Step, estimate};

const MS: u128 = 1_000_000;

fn manager(buffer_size: usize) -> SerialManager {
    let mut m = SerialManager::new();
    m.open(
        "COM1",
        115200,
        DataBits::Eight,
        Parity::Off,
        StopBits::One,
        FlowControl::Off,
        500,
        buffer_size,
        Ok(()),
        0,
    )
    .unwrap();
    m
}

fn asks<T: std::fmt::Debug>(next: Next<T>, io: Io) {
    match next {
        Next::Do(what) => assert_eq!(what, io),
        other => panic!("{other:?}"),
    }
}

fn fails<T: std::fmt::Debug>(next: Next<T>) -> String {
    match next {
        Next::Fail(e) => e,
        other => panic!("{other:?}"),
    }
}

fn done<T: std::fmt::Debug>(next: Next<T>) -> T {
    match next {
        Next::Done(t) => t,
        other => panic!("{other:?}"),
    }
}

#[test]
fn a_write_goes_on_until_everything_is_accepted() {
    let mut w = WriteOp::new(b"hello".to_vec());
    asks(w.step(IoEvent::Woke), Io::Write);
    assert_eq!(w.rest(), b"hello");
    asks(w.step(IoEvent::Wrote(Ok(2))), Io::Write);
    assert_eq!(w.rest(), b"llo");
    asks(w.step(IoEvent::Wrote(Ok(3))), Io::Flush);
    assert_eq!(done(w.step(IoEvent::Flushed(Ok(())))), 5);
}

#[test]
fn a_write_can_fail() {
    let mut w = WriteOp::new(b"x".to_vec());
    assert_eq!(fails(w.step(IoEvent::Wrote(Err("gone".to_string())))), "写入失败: gone");
    let mut w = WriteOp::new(b"x".to_vec());
    assert!(fails(w.step(IoEvent::Wrote(Ok(0)))).starts_with("写入失败: "));
    let mut w = WriteOp::new(b"".to_vec());
    asks(w.step(IoEvent::Woke), Io::Flush);
    assert_eq!(fails(w.step(IoEvent::Flushed(Err("gone".to_string())))), "flush 失败: gone");
}

fn read(m: &SerialManager, idle_ms: u64, max_bytes: usize, timeout_ms: u64, now: u128) -> ReadOp {
    m.read("COM1", idle_ms, max_bytes, timeout_ms, now).unwrap()
}

#[test]
fn a_read_ends_when_it_is_quiet() {
    let mut m = manager(64);
    let op = read(&m, 300, 1000, 5000, 0);
    asks(m.read_step(&op, IoEvent::Woke, 0), Io::Wait);
    m.receive("COM1", b"OK", 100 * MS).unwrap();
    asks(m.read_step(&op, IoEvent::Woke, 399 * MS), Io::Wait);
    asks(m.read_step(&op, IoEvent::Woke, 400 * MS), Io::Query);
    asks(m.read_step(&op, IoEvent::Queried(Ok(3)), 400 * MS), Io::Wait);
    asks(m.read_step(&op, IoEvent::Woke, 410 * MS), Io::Query);
    let o = done(m.read_step(&op, IoEvent::Queried(Ok(0)), 411 * MS));
    assert_eq!(o.data, b"OK");
    assert_eq!(o.reason, ReadReason::Idle);
    assert!(o.new_data_observed);
    assert_eq!(o.buffered, 0);
}

#[test]
fn a_read_ends_when_enough_is_there() {
    let mut m = manager(64);
    let op = read(&m, 300, 3, 5000, 0);
    m.receive("COM1", b"abcd", 10 * MS).unwrap();
    let o = done(m.read_step(&op, IoEvent::Woke, 11 * MS));
    assert_eq!((o.data.as_slice(), o.reason), (b"abcd".as_slice(), ReadReason::MaxBytes));
}

#[test]
fn a_read_ends_when_the_time_is_up() {
    let mut m = manager(64);
    let op = read(&m, 300, 1000, 100, 7 * MS);
    asks(m.read_step(&op, IoEvent::Woke, 106 * MS), Io::Wait);
    let o = done(m.read_step(&op, IoEvent::Woke, 107 * MS));
    assert_eq!((o.data.len(), o.reason), (0, ReadReason::Timeout));
    assert!(!o.new_data_observed);
}

#[test]
fn a_read_returns_what_was_there_before() {
    let mut m = manager(64);
    m.receive("COM1", b"old", 0).unwrap();
    let op = read(&m, 10, 1000, 5000, 500 * MS);
    asks(m.read_step(&op, IoEvent::Woke, 500 * MS), Io::Query);
    let o = done(m.read_step(&op, IoEvent::Queried(Ok(0)), 500 * MS));
    assert_eq!((o.data.as_slice(), o.reason), (b"old".as_slice(), ReadReason::Idle));
    assert!(!o.new_data_observed);
}

#[test]
fn nothing_is_returned_only_when_the_time_is_up() {
    let mut m = manager(64);
    m.receive("COM1", b"abc", 0).unwrap();
    let op = read(&m, 0, 0, 100, 0);
    asks(m.read_step(&op, IoEvent::Woke, 1), Io::Query);
    m.clear("COM1").unwrap();
    asks(m.read_step(&op, IoEvent::Queried(Ok(0)), 2), Io::Wait);
    let o = done(m.read_step(&op, IoEvent::Woke, 100 * MS));
    assert_eq!((o.data.len(), o.reason), (0, ReadReason::Timeout));
}

#[test]
fn losses_are_reported_once() {
    let mut m = manager(4);
    m.receive("COM1", b"abcdef", 0).unwrap();
    let op = read(&m, 0, 1, 5000, 0);
    let o = done(m.read_step(&op, IoEvent::Queried(Ok(0)), 0));
    assert_eq!((o.overflow_delta, o.overflow_total), (2, 2));
    m.receive("COM1", b"ghijk", 0).unwrap();
    let o = done(m.read_step(&op, IoEvent::Queried(Ok(0)), 0));
    assert_eq!((o.overflow_delta, o.overflow_total), (1, 3));
    m.receive("COM1", b"l", 0).unwrap();
    let o = done(m.read_step(&op, IoEvent::Queried(Ok(0)), 0));
    assert_eq!((o.overflow_delta, o.overflow_total), (0, 3));
}

#[test]
fn a_driver_that_fails_ends_a_read() {
    let mut m = manager(64);
    m.receive("COM1", b"x", 0).unwrap();
    let op = read(&m, 0, 100, 5000, 0);
    assert_eq!(
        fails(m.read_step(&op, IoEvent::Queried(Err("gone".to_string())), 1)),
        "查询串口可读字节数失败: gone"
    );
    assert_eq!(m.available("COM1").buffered_bytes, 1);
    m.close_finished("COM1").unwrap();
    assert!(fails(m.read_step(&op, IoEvent::Woke, 1)).contains("未打开"));
}

fn exchange(m: &SerialManager, data: &[u8], max_bytes: usize) -> ExchangeOp {
    m.exchange("COM1", data.to_vec(), 200, max_bytes, 3000, 0).unwrap()
}

#[test]
fn an_exchange_is_not_ended_by_what_was_there_before() {
    let mut m = manager(64);
    m.receive("COM1", b"OLD-BUFFER|", 0).unwrap();
    let mut op = exchange(&m, b"NEW", 1);
    asks(m.exchange_step(&mut op, IoEvent::Woke, 500 * MS), Io::Write);
    assert_eq!(op.rest(), b"NEW");
    asks(m.exchange_step(&mut op, IoEvent::Wrote(Ok(3)), 500 * MS), Io::Flush);
    asks(m.exchange_step(&mut op, IoEvent::Flushed(Ok(())), 510 * MS), Io::Wait);
    asks(m.exchange_step(&mut op, IoEvent::Woke, 1000 * MS), Io::Wait);
    m.receive("COM1", b"NEW-RESPONSE", 1100 * MS).unwrap();
    let (written, o) = done(m.exchange_step(&mut op, IoEvent::Woke, 1101 * MS));
    assert_eq!(written, 3);
    assert_eq!(o.data, b"OLD-BUFFER|NEW-RESPONSE");
    assert!(o.new_data_observed);
    assert_eq!(o.overflow_delta, 0);
}

#[test]
fn the_time_of_an_exchange_begins_after_the_write() {
    let mut m = manager(64);
    let mut op = exchange(&m, b"", 1);
    asks(m.exchange_step(&mut op, IoEvent::Woke, 0), Io::Flush);
    asks(m.exchange_step(&mut op, IoEvent::Flushed(Ok(())), 2999 * MS), Io::Wait);
    asks(m.exchange_step(&mut op, IoEvent::Woke, 5998 * MS), Io::Wait);
    let (_, o) = done(m.exchange_step(&mut op, IoEvent::Woke, 5999 * MS));
    assert_eq!(o.reason, ReadReason::Timeout);
}

#[test]
fn an_exchange_whose_write_fails_reads_nothing() {
    let mut m = manager(64);
    m.receive("COM1", b"old", 0).unwrap();
    let mut op = exchange(&m, b"x", 1);
    assert_eq!(
        fails(m.exchange_step(&mut op, IoEvent::Wrote(Err("gone".to_string())), 1)),
        "写入失败: gone"
    );
    assert_eq!(m.available("COM1").buffered_bytes, 3);
}

fn expect(
    m: &SerialManager,
    data: Option<&[u8]>,
    pattern: &[u8],
    consume: bool,
    scope: MatchScope,
    ignore_ansi: bool,
) -> ExpectOp {
    m.expect(
        "COM1",
        data.map(|d| d.to_vec()),
        pattern.to_vec(),
        1000,
        consume,
        scope,
        ignore_ansi,
        0,
    )
    .unwrap()
}

fn look(m: &mut SerialManager, op: &mut ExpectOp, now: u128) -> ExpectOutcome {
    done(m.expect_step(op, IoEvent::Woke, now))
}

#[test]
fn an_expectation_takes_up_to_the_pattern() {
    let mut m = manager(64);
    let mut op = expect(&m, None, b"Zynq> ", true, MatchScope::Buffer, false);
    m.receive("COM1", b"U-Boot\nZy", 1).unwrap();
    asks(m.expect_step(&mut op, IoEvent::Woke, 2), Io::Wait);
    m.receive("COM1", b"nq> rest", 3).unwrap();
    let o = look(&mut m, &mut op, 4);
    assert!(o.matched);
    assert_eq!(o.reason, ExpectReason::Matched);
    assert_eq!(o.data, b"U-Boot\nZynq> ");
    assert_eq!(o.buffered, 4);
    assert_eq!(o.written, 0);
}

#[test]
fn an_expectation_can_leave_everything() {
    let mut m = manager(4);
    m.receive("COM1", b"xabcd", 1).unwrap();
    let mut op = expect(&m, None, b"bc", false, MatchScope::Buffer, false);
    let o = look(&mut m, &mut op, 4);
    assert!(o.matched && o.data.is_empty());
    assert_eq!((o.overflow_delta, o.overflow_total, o.buffered), (0, 1, 4));
    let mut op = expect(&m, None, b"bc", true, MatchScope::Buffer, false);
    let o = look(&mut m, &mut op, 4);
    assert_eq!((o.overflow_delta, o.overflow_total), (1, 1));
    assert_eq!(o.data, b"abc");
}

#[test]
fn an_expectation_in_vain_takes_nothing() {
    let mut m = manager(4);
    m.receive("COM1", b"abcdefg", 1).unwrap();
    let mut op = expect(&m, None, b"xyz", true, MatchScope::Buffer, false);
    asks(m.expect_step(&mut op, IoEvent::Woke, 999 * MS), Io::Wait);
    let o = look(&mut m, &mut op, 1000 * MS);
    assert!(!o.matched);
    assert_eq!(o.reason, ExpectReason::Timeout);
    assert_eq!((o.overflow_delta, o.overflow_total, o.buffered), (3, 3, 4));
    let op = read(&m, 0, 1, 5000, 0);
    let o = done(m.read_step(&op, IoEvent::Queried(Ok(0)), 0));
    assert_eq!(o.overflow_delta, 3);
}

#[test]
fn an_expectation_in_vain_that_takes_nothing_reports_no_losses() {
    let mut m = manager(4);
    m.receive("COM1", b"abcdefg", 1).unwrap();
    let mut op = expect(&m, None, b"xyz", false, MatchScope::Buffer, false);
    let o = look(&mut m, &mut op, 1000 * MS);
    assert!(!o.matched && o.data.is_empty());
    assert_eq!(o.reason, ExpectReason::Timeout);
    assert_eq!((o.overflow_delta, o.overflow_total, o.buffered), (0, 3, 4));
    let op = read(&m, 0, 1, 5000, 0);
    let o = done(m.read_step(&op, IoEvent::Queried(Ok(0)), 0));
    assert_eq!(o.data, b"defg");
    assert_eq!((o.overflow_delta, o.overflow_total), (3, 3));
}

#[test]
fn an_expectation_writes_first() {
    let mut m = manager(64);
    let mut op = expect(&m, Some(b"ls\n"), b"# ", true, MatchScope::Buffer, false);
    asks(m.expect_step(&mut op, IoEvent::Woke, 0), Io::Write);
    assert_eq!(op.rest(), b"ls\n");
    asks(m.expect_step(&mut op, IoEvent::Wrote(Ok(3)), 1), Io::Flush);
    m.receive("COM1", b"ls\r\nbin\r\n# ", 2).unwrap();
    let o = done(m.expect_step(&mut op, IoEvent::Flushed(Ok(())), 3));
    assert!(o.matched);
    assert_eq!(o.written, 3);
    assert_eq!(o.data, b"ls\r\nbin\r\n# ");
}

#[test]
fn new_bytes_only() {
    let mut m = manager(64);
    m.receive("COM1", b"MARK", 0).unwrap();
    let mut op = expect(&m, None, b"MARK", true, MatchScope::New, false);
    asks(m.expect_step(&mut op, IoEvent::Woke, 1), Io::Wait);
    m.receive("COM1", b"MARK!", 2).unwrap();
    let o = look(&mut m, &mut op, 3);
    assert!(o.matched);
    assert_eq!(o.data, b"MARKMARK");
    assert_eq!(o.buffered, 1);
}

#[test]
fn what_is_new_is_settled_before_the_write() {
    let mut m = manager(64);
    let mut op = expect(&m, Some(b"x"), b"echo", true, MatchScope::New, false);
    asks(m.expect_step(&mut op, IoEvent::Wrote(Ok(1)), 1), Io::Flush);
    m.receive("COM1", b"echo", 2).unwrap();
    assert!(done(m.expect_step(&mut op, IoEvent::Flushed(Ok(())), 3)).matched);
}

#[test]
fn control_sequences_can_be_skipped() {
    let mut m = manager(64);
    m.receive("COM1", b"\x1b[31mAB\x1b[0m\x1b[32mCD\x1b[0m|", 0).unwrap();
    let mut op = expect(&m, None, b"ABCD", true, MatchScope::Buffer, false);
    asks(m.expect_step(&mut op, IoEvent::Woke, 1), Io::Wait);
    let mut op = expect(&m, None, b"ABCD", true, MatchScope::Buffer, true);
    let o = look(&mut m, &mut op, 1);
    assert_eq!(o.data, b"\x1b[31mAB\x1b[0m\x1b[32mCD");
    assert_eq!(o.buffered, 5);
}

#[test]
fn a_reply_is_written_on_a_match() {
    let mut m = manager(64);
    let mut op = m
        .expect_send(
            "COM1",
            b"Hit any key".to_vec(),
            b"R\r\n".to_vec(),
            1000,
            true,
            MatchScope::Buffer,
            false,
            0,
        )
        .unwrap();
    asks(m.expect_step(&mut op, IoEvent::Woke, 0), Io::Wait);
    m.receive("COM1", b"Hit any key to stop", 1).unwrap();
    asks(m.expect_step(&mut op, IoEvent::Woke, 2), Io::Write);
    assert_eq!(op.rest(), b"R\r\n");
    asks(m.expect_step(&mut op, IoEvent::Wrote(Ok(1)), 3), Io::Write);
    assert_eq!(op.rest(), b"\r\n");
    asks(m.expect_step(&mut op, IoEvent::Wrote(Ok(2)), 4), Io::Flush);
    let o = done(m.expect_step(&mut op, IoEvent::Flushed(Ok(())), 5));
    assert!(o.matched);
    assert_eq!((o.written, o.data.as_slice()), (3, b"Hit any key".as_slice()));
    assert_eq!(o.buffered, 8);
}

#[test]
fn no_reply_is_written_in_vain() {
    let mut m = manager(64);
    m.receive("COM1", b"MARK", 0).unwrap();
    let mut op = m
        .expect_send(
            "COM1",
            b"MARK".to_vec(),
            b"X".to_vec(),
            150,
            true,
            MatchScope::New,
            false,
            0,
        )
        .unwrap();
    let o = look(&mut m, &mut op, 150 * MS);
    assert!(!o.matched);
    assert_eq!((o.written, o.buffered), (0, 4));
}

fn start(m: &mut SerialManager, total: u64, gap_ms: u64, max: Option<u64>) -> SendOp {
    m.send_file("COM1", total, gap_ms, max, 0).unwrap()
}

fn step(m: &mut SerialManager, op: &mut SendOp, event: IoEvent, now: u128) -> Next<SendFileOutcome> {
    m.send_step(op, event, false, now)
}

fn chunk(c: &[u8]) -> IoEvent {
    IoEvent::Chunk(Ok(Some(c.to_vec())))
}

/// Writes one chunk completely.
fn send_chunk(m: &mut SerialManager, op: &mut SendOp, c: &[u8], now: u128) -> Next<SendFileOutcome> {
    asks(step(m, op, chunk(c), now), Io::Write);
    assert_eq!(op.rest(), c);
    asks(step(m, op, IoEvent::Wrote(Ok(c.len())), now), Io::Flush);
    step(m, op, IoEvent::Flushed(Ok(())), now)
}

#[test]
fn a_transfer_writes_all_chunks() {
    let mut m = manager(4);
    m.receive("COM1", b"12345", 0).unwrap();
    let mut op = start(&mut m, 7, 0, None);
    asks(step(&mut m, &mut op, IoEvent::Woke, 0), Io::Chunk);
    asks(send_chunk(&mut m, &mut op, b"abcd", 1), Io::Chunk);
    let info = m.available("COM1");
    assert!(info.send.active);
    assert_eq!((info.send.sent_bytes, info.send.total_bytes, info.send.chunks), (4, 7, 1));
    assert_eq!(info.send.last_reason, None);
    asks(send_chunk(&mut m, &mut op, b"efg", 2), Io::Chunk);
    assert_eq!(op.counts(), (7, 2));
    m.receive("COM1", b"xyz", 3).unwrap();
    let o = done(step(&mut m, &mut op, IoEvent::Chunk(Ok(None)), 2500 * MS));
    assert_eq!(o.reason, "completed");
    assert_eq!((o.raw_bytes, o.sent_bytes, o.chunks), (7, 7, 2));
    assert_eq!(o.elapsed_ms, 2500);
    assert_eq!((o.overflow_delta, o.overflow_total), (3, 4));
    assert_eq!(o.device_error, None);
    let info = m.available("COM1");
    assert!(!info.send.active);
    assert_eq!(info.send.last_reason.as_deref(), Some("completed"));
}

#[test]
fn a_cancelled_transfer_writes_no_further_chunk() {
    let mut m = manager(16);
    let mut op = start(&mut m, 10, 0, None);
    asks(send_chunk(&mut m, &mut op, b"ab", 1), Io::Chunk);
    assert!(m.cancel_send("COM1").unwrap().active);
    let o = done(step(&mut m, &mut op, chunk(b"cd"), 2));
    assert_eq!((o.reason.as_str(), o.sent_bytes, o.chunks), ("cancelled", 2, 1));
    assert_eq!(m.available("COM1").send.last_reason.as_deref(), Some("cancelled"));
    let mut op = start(&mut m, 10, 0, None);
    asks(step(&mut m, &mut op, chunk(b"cd"), 3), Io::Write);
}

#[test]
fn a_withdrawn_request_or_a_closed_port_cancels() {
    let mut m = manager(16);
    let mut op = start(&mut m, 10, 0, None);
    let o = done(m.send_step(&mut op, chunk(b"ab"), true, 1));
    assert_eq!(o.reason, "cancelled");
    let mut op = start(&mut m, 10, 0, None);
    let closing = m.close("COM1", 0).unwrap();
    asks(m.close_step(&closing, 1), Io::Wait);
    let o = done(step(&mut m, &mut op, chunk(b"ab"), 1));
    assert_eq!(o.reason, "cancelled");
    done(m.close_step(&closing, 2));
    let mut m = manager(16);
    let mut op = start(&mut m, 10, 0, None);
    m.close_finished("COM1").unwrap();
    let o = done(step(&mut m, &mut op, chunk(b"ab"), 1));
    assert_eq!((o.reason.as_str(), o.overflow_delta), ("cancelled", 0));
}

#[test]
fn a_pause_ends_in_time() {
    let mut m = manager(16);
    let mut op = start(&mut m, 10, 100, None);
    asks(send_chunk(&mut m, &mut op, b"ab", 5 * MS), Io::Wait);
    asks(step(&mut m, &mut op, IoEvent::Woke, 104 * MS), Io::Wait);
    asks(step(&mut m, &mut op, IoEvent::Woke, 105 * MS), Io::Chunk);
}

#[test]
fn a_withdrawn_request_ends_a_pause() {
    let mut m = manager(16);
    let mut op = start(&mut m, 10, 100, None);
    asks(send_chunk(&mut m, &mut op, b"ab", 5 * MS), Io::Wait);
    let o = done(m.send_step(&mut op, IoEvent::Woke, true, 6 * MS));
    assert_eq!((o.reason.as_str(), o.sent_bytes, o.chunks), ("cancelled", 2, 1));
}

#[test]
fn a_cancel_in_a_pause_counts_before_the_next_chunk() {
    let mut m = manager(16);
    let mut op = start(&mut m, 10, 100, None);
    asks(send_chunk(&mut m, &mut op, b"ab", 5 * MS), Io::Wait);
    m.cancel_send("COM1").unwrap();
    asks(step(&mut m, &mut op, IoEvent::Woke, 6 * MS), Io::Wait);
    asks(step(&mut m, &mut op, IoEvent::Woke, 105 * MS), Io::Chunk);
    let o = done(step(&mut m, &mut op, chunk(b"cd"), 105 * MS));
    assert_eq!((o.reason.as_str(), o.sent_bytes, o.chunks), ("cancelled", 2, 1));
}

#[test]
fn a_cancel_after_the_last_chunk_comes_too_late() {
    let mut m = manager(16);
    let mut op = start(&mut m, 2, 100, None);
    asks(send_chunk(&mut m, &mut op, b"ab", 5 * MS), Io::Wait);
    m.cancel_send("COM1").unwrap();
    asks(step(&mut m, &mut op, IoEvent::Woke, 104 * MS), Io::Wait);
    asks(step(&mut m, &mut op, IoEvent::Woke, 105 * MS), Io::Chunk);
    let o = done(step(&mut m, &mut op, IoEvent::Chunk(Ok(None)), 105 * MS));
    assert_eq!((o.reason.as_str(), o.sent_bytes, o.chunks), ("completed", 2, 1));
}

#[test]
fn closing_does_not_wait_for_a_pause() {
    let mut m = manager(16);
    let mut op = start(&mut m, 10, 60_000, None);
    asks(send_chunk(&mut m, &mut op, b"ab", 5 * MS), Io::Wait);
    let closing = m.close("COM1", 6 * MS).unwrap();
    asks(step(&mut m, &mut op, IoEvent::Woke, 6 * MS), Io::Chunk);
    let o = done(step(&mut m, &mut op, chunk(b"cd"), 7 * MS));
    assert_eq!((o.reason.as_str(), o.sent_bytes), ("cancelled", 2));
    done(m.close_step(&closing, 8 * MS));
}

#[test]
fn a_transfer_stops_when_its_time_is_up() {
    let mut m = manager(16);
    let mut op = start(&mut m, 10, 60_000, Some(350));
    asks(send_chunk(&mut m, &mut op, b"ab", 5 * MS), Io::Wait);
    asks(step(&mut m, &mut op, IoEvent::Woke, 349 * MS), Io::Wait);
    asks(step(&mut m, &mut op, IoEvent::Woke, 350 * MS), Io::Chunk);
    let o = done(step(&mut m, &mut op, chunk(b"cd"), 351 * MS));
    assert_eq!((o.reason.as_str(), o.sent_bytes), ("duration_limit", 2));
    assert_eq!(m.available("COM1").send.last_reason.as_deref(), Some("duration_limit"));
}

#[test]
fn a_transfer_stops_when_the_device_is_gone() {
    let mut m = manager(16);
    let mut op = start(&mut m, 10, 0, Some(1));
    asks(send_chunk(&mut m, &mut op, b"ab", 0), Io::Chunk);
    m.reader_failed("COM1", "读取串口失败: gone".to_string()).unwrap();
    let o = done(step(&mut m, &mut op, chunk(b"cd"), 5 * MS));
    assert_eq!(o.reason, "device_error");
    assert_eq!(o.device_error.as_deref(), Some("读取串口失败: gone"));
}

#[test]
fn a_failed_transfer_tells_how_far_it_came() {
    let mut m = manager(16);
    let mut op = start(&mut m, 10, 0, None);
    asks(send_chunk(&mut m, &mut op, b"ab", 1), Io::Chunk);
    asks(step(&mut m, &mut op, chunk(b"cd"), 2), Io::Write);
    assert_eq!(
        fails(step(&mut m, &mut op, IoEvent::Wrote(Err("gone".to_string())), 3)),
        "写入失败: 写入失败: gone（已发送 2 字节 / 1 片）"
    );
    assert_eq!(m.available("COM1").send.last_reason.as_deref(), Some("error"));
    let mut op = start(&mut m, 10, 0, None);
    assert_eq!(
        fails(step(&mut m, &mut op, IoEvent::Chunk(Err("读取文件失败: f: bad".to_string())), 3)),
        "读取文件失败: f: bad（已发送 0 字节 / 0 片）"
    );
}

#[test]
fn operations_need_an_open_port() {
    let mut m = SerialManager::new();
    let message = "端口 COM1 未打开，请先调用 uart_open";
    assert_eq!(m.write("COM1", vec![1]).unwrap_err(), message);
    assert_eq!(m.read("COM1", 1, 1, 1, 0).unwrap_err(), message);
    assert_eq!(m.exchange("COM1", vec![1], 1, 1, 1, 0).unwrap_err(), message);
    assert_eq!(
        m.expect("COM1", None, vec![1], 1, true, MatchScope::Buffer, false, 0).unwrap_err(),
        message
    );
    assert_eq!(
        m.expect_send("COM1", vec![1], vec![2], 1, true, MatchScope::Buffer, false, 0)
            .unwrap_err(),
        message
    );
    assert_eq!(m.send_file("COM1", 1, 0, None, 0).unwrap_err(), message);
}

#[test]
fn a_completed_transfer_is_the_whole_file() {
    let file = b"any carnal pleas";
    for (mode, expected) in [
        (SendMode::Text, &b"any carnal pleas"[..]),
        (SendMode::Base64, &b"YW55IGNhcm5hbCBwbGVhcw==\n"[..]),
    ] {
        let mut m = manager(16);
        let mut op = start(&mut m, file.len() as u64, 0, None);
        let mut iter = ChunkIter::new("fw.bin", mode, 5);
        let mut left: &[u8] = file;
        let mut wire: Vec<u8> = Vec::new();
        let mut event = IoEvent::Woke;
        let outcome = loop {
            match step(&mut m, &mut op, event, 1) {
                Next::Do(Io::Chunk) => {
                    event = loop {
                        let n = iter.want().min(left.len());
                        let read = left[..n].to_vec();
                        left = &left[n..];
                        match iter.next(Ok(read)) {
                            Step::Read => {}
                            Step::Chunk(c) => break IoEvent::Chunk(Ok(Some(c))),
                            Step::End => break IoEvent::Chunk(Ok(None)),
                            Step::Failed(e) => panic!("{e}"),
                        }
                    };
                }
                Next::Do(Io::Write) => {
                    let n = op.rest().len().min(3);
                    wire.extend_from_slice(&op.rest()[..n]);
                    event = IoEvent::Wrote(Ok(n));
                }
                Next::Do(Io::Flush) => event = IoEvent::Flushed(Ok(())),
                Next::Do(io) => panic!("{io:?}"),
                Next::Done(o) => break o,
                Next::Fail(e) => panic!("{e}"),
            }
        };
        assert_eq!(wire, expected);
        assert_eq!((outcome.reason.as_str(), outcome.sent_bytes), ("completed", wire.len() as u64));
        let e = estimate(mode, file.len() as u64, 5, 0, 115200);
        assert_eq!((outcome.sent_bytes, outcome.chunks), (e.est_sent_bytes, e.est_chunks));
    }
}

#[test]
fn new_visible_bytes_only() {
    let mut m = manager(64);
    m.receive("COM1", b"AB\x1b[3", 0).unwrap();
    let mut op = expect(&m, None, b"AB", true, MatchScope::New, true);
    asks(m.expect_step(&mut op, IoEvent::Woke, 1), Io::Wait);
    m.receive("COM1", b"1A\x1b[0m", 2).unwrap();
    asks(m.expect_step(&mut op, IoEvent::Woke, 3), Io::Wait);
    m.receive("COM1", b"A\x1b[1mB!", 4).unwrap();
    let o = look(&mut m, &mut op, 5);
    assert!(o.matched);
    assert_eq!(o.data, b"AB\x1b[31A\x1b[0mA\x1b[1mB");
    assert_eq!(o.buffered, 1);
}
