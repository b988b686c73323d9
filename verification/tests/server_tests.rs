use ser2mcp::cli::{Command, parse_command, port_lines};
use ser2mcp::manager::{
    ExpectOutcome, ExpectReason, FlowControl, MatchScope, Parity, PortInfo, ReadOutcome,
    ReadReason, SendFileOutcome, SendProgress, StopBits,
};
use ser2mcp::reader::{
    ReadFault, Readiness, ReaderAction, ReaderEvent, TimerCount, WaitVerdict, judge_wait,
    next_action,
};
use ser2mcp::sendfile::SendMode;
use ser2mcp::server::{
    AvailableArgs, ClearArgs, CloseArgs, ConfigureArgs, ExchangeArgs, ExpectArgs, ExpectSendArgs,
    FileMeta, OpenArgs, ReadArgs, SendCancelArgs, SendEstimateArgs, SendFileArgs, SendPlan,
    WriteArgs, apply_newline, encode_recv, encode_send, exchange_result, expect_result,
    parse_match_scope, parse_newline, parse_recv_mode, parse_send_mode, read_reason_str,
    read_result, send_cancel_result, send_file_meta, send_file_result, uart_available, uart_clear,
    uart_close, uart_configure, uart_exchange, uart_expect, uart_expect_send, uart_open, uart_read,
    uart_send_cancel, uart_send_estimate, uart_send_file, uart_write, write_result,
};

fn s(t: &str) -> String {
    t.to_string()
}

fn some(t: &str) -> Option<String> {
    Some(t.to_string())
}

fn open_args() -> OpenArgs {
    OpenArgs {
        port: s("COM1"),
        baudrate: None,
        data_bits: None,
        parity: None,
        stop_bits: None,
        flow_control: None,
        read_timeout_ms: None,
        buffer_size: None,
        discard_on_open: None,
    }
}

#[test]
fn open_has_defaults() {
    let plan = uart_open(open_args()).unwrap();
    assert_eq!(plan.port, "COM1");
    assert_eq!(plan.config, ser2mcp::manager::PortConfig::default());
    assert!(plan.discard_on_open);
}

#[test]
fn open_takes_what_is_given() {
    let plan = uart_open(OpenArgs {
        baudrate: Some(9600),
        parity: some("ODD"),
        stop_bits: Some(2),
        flow_control: some("hardware"),
        read_timeout_ms: Some(7),
        buffer_size: Some(16 * 1024 * 1024),
        discard_on_open: Some(false),
        ..open_args()
    })
    .unwrap();
    assert_eq!(plan.config.baudrate, 9600);
    assert_eq!(plan.config.parity, Parity::Odd);
    assert_eq!(plan.config.stop_bits, StopBits::Two);
    assert_eq!(plan.config.flow_control, FlowControl::Hardware);
    assert_eq!(plan.config.read_timeout_ms, 7);
    assert_eq!(plan.config.buffer_size, 16 * 1024 * 1024);
    assert!(!plan.discard_on_open);
}

#[test]
fn open_is_refused() {
    for (args, message) in [
        (OpenArgs { port: s(" \t\u{3000}"), ..open_args() }, "port 不能为空"),
        (
            OpenArgs { baudrate: Some(10), data_bits: Some(4), ..open_args() },
            "baudrate 超出合理范围 (50-4,000,000)，收到 10",
        ),
        (OpenArgs { data_bits: Some(4), ..open_args() }, "data_bits 仅支持 5-8，收到 4"),
        (
            OpenArgs { parity: some("x"), ..open_args() },
            "parity 仅支持 none/even/odd，收到 \"x\"",
        ),
        (OpenArgs { stop_bits: Some(3), ..open_args() }, "stop_bits 仅支持 1 或 2，收到 3"),
        (
            OpenArgs { flow_control: some("x"), ..open_args() },
            "flow_control 仅支持 none/software/hardware，收到 \"x\"",
        ),
        (
            OpenArgs { buffer_size: Some(0), ..open_args() },
            "buffer_size must be in 1..=16777216 bytes",
        ),
        (
            OpenArgs { buffer_size: Some(16 * 1024 * 1024 + 1), ..open_args() },
            "buffer_size must be in 1..=16777216 bytes",
        ),
    ] {
        assert_eq!(uart_open(args).unwrap_err(), message);
    }
}

#[test]
fn configure_takes_only_what_is_given() {
    let mut args = ConfigureArgs {
        port: s("COM1"),
        baudrate: None,
        data_bits: None,
        parity: some("even"),
        stop_bits: None,
        flow_control: None,
        read_timeout_ms: None,
    };
    let settings = uart_configure(&args).unwrap();
    assert_eq!(settings.baudrate, None);
    assert_eq!(settings.parity, Some(Parity::Even));
    args.port = s("");
    assert_eq!(uart_configure(&args).unwrap_err(), "port 不能为空");
}

fn write_args() -> WriteArgs {
    WriteArgs { port: s("COM1"), data: s("41 54"), mode: None, newline: None }
}

#[test]
fn write_decodes_and_adds_the_line_end() {
    let plan = uart_write(write_args()).unwrap();
    assert_eq!(plan.data, b"AT");
    assert_eq!((plan.mode.as_str(), plan.newline.as_str()), ("hex", "none"));
    let plan = uart_write(WriteArgs {
        data: s("ls 中"),
        mode: some("TEXT"),
        newline: some("CRLF"),
        ..write_args()
    })
    .unwrap();
    assert_eq!(plan.data, "ls 中\r\n".as_bytes());
    let reply = write_result(9, plan.mode, plan.newline);
    assert_eq!((reply.written, reply.mode.as_str(), reply.newline.as_str()), (9, "text", "crlf"));
}

#[test]
fn write_is_refused() {
    for (args, message) in [
        (WriteArgs { port: s(""), mode: some("x"), ..write_args() }, "port 不能为空"),
        (
            WriteArgs { mode: some("Base64"), newline: some("cr"), ..write_args() },
            "mode 仅支持 hex 或 text，收到 \"base64\"",
        ),
        (
            WriteArgs { mode: some("text-escaped"), ..write_args() },
            "text-escaped 仅用于返回编码（read_mode），发送编码仅支持 hex 或 text",
        ),
        (
            WriteArgs { newline: some("CR"), data: s("zz"), ..write_args() },
            "newline 仅支持 none、lf 或 crlf，收到 \"cr\"",
        ),
        (
            WriteArgs { data: s("zz"), ..write_args() },
            "非法 hex 字符: 'z'（仅允许 0-9 A-F a-f 及分隔符）",
        ),
    ] {
        assert_eq!(uart_write(args).unwrap_err(), message);
    }
}

fn read_args() -> ReadArgs {
    ReadArgs {
        port: s("COM1"),
        idle_ms: None,
        max_bytes: None,
        timeout_ms: None,
        read_mode: None,
    }
}

#[test]
fn read_has_defaults_and_bounds() {
    let plan = uart_read(read_args()).unwrap();
    assert_eq!((plan.idle_ms, plan.max_bytes, plan.timeout_ms), (300, 65536, 5000));
    assert_eq!(plan.read_mode, "hex");
    let plan = uart_read(ReadArgs { max_bytes: Some(0), ..read_args() }).unwrap();
    assert_eq!(plan.max_bytes, 1);
    assert!(uart_read(ReadArgs { timeout_ms: Some(300_000), ..read_args() }).is_ok());
    assert_eq!(
        uart_read(ReadArgs { timeout_ms: Some(300_001), read_mode: some("x"), ..read_args() })
            .unwrap_err(),
        "timeout_ms exceeds the limit of 300000ms"
    );
    assert_eq!(
        uart_read(ReadArgs { read_mode: some("Base64"), ..read_args() }).unwrap_err(),
        "read_mode 仅支持 hex、text 或 text-escaped，收到 \"base64\""
    );
    assert_eq!(
        uart_read(ReadArgs { port: s("  "), ..read_args() }).unwrap_err(),
        "port 不能为空"
    );
    assert!(uart_read(ReadArgs { read_mode: some("text-escaped"), ..read_args() }).is_ok());
}

fn exchange_args() -> ExchangeArgs {
    ExchangeArgs {
        port: s("COM1"),
        data: s("x"),
        mode: some("text"),
        newline: some("crlf"),
        idle_ms: Some(10),
        max_bytes: None,
        timeout_ms: None,
        read_mode: some("text-escaped"),
    }
}

#[test]
fn exchange_is_a_write_and_a_read() {
    let plan = uart_exchange(exchange_args()).unwrap();
    assert_eq!(plan.data, b"x\r\n");
    assert_eq!(plan.newline, "crlf");
    assert_eq!(plan.read.port, "COM1");
    assert_eq!((plan.read.idle_ms, plan.read.timeout_ms), (10, 5000));
    assert!(uart_exchange(ExchangeArgs { timeout_ms: Some(300_001), ..exchange_args() }).is_err());
    assert!(uart_exchange(ExchangeArgs { mode: some("x"), ..exchange_args() }).is_err());
    assert!(uart_exchange(ExchangeArgs { port: s(""), ..exchange_args() }).is_err());
}

fn expect_args() -> ExpectArgs {
    ExpectArgs {
        port: s("COM1"),
        pattern: s("41 42"),
        pattern_mode: None,
        timeout_ms: None,
        consume: None,
        match_scope: None,
        ignore_ansi: None,
        data: None,
        mode: None,
        newline: None,
        read_mode: None,
    }
}

#[test]
fn expect_has_defaults() {
    let plan = uart_expect(expect_args()).unwrap();
    assert_eq!(plan.pattern, b"AB");
    assert_eq!(plan.pattern_text, "41 42");
    assert_eq!(plan.timeout_ms, 5000);
    assert!(plan.consume && !plan.ignore_ansi);
    assert_eq!(plan.match_scope, MatchScope::Buffer);
    assert_eq!((plan.data, plan.reply), (None, None));
    let plan = uart_expect(ExpectArgs {
        data: some("x"),
        mode: some("text"),
        newline: some("lf"),
        match_scope: some("NEW"),
        ignore_ansi: Some(true),
        consume: Some(false),
        ..expect_args()
    })
    .unwrap();
    assert_eq!(plan.data.as_deref(), Some(b"x\n".as_slice()));
    assert_eq!(plan.match_scope, MatchScope::New);
    assert!(plan.ignore_ansi && !plan.consume);
}

#[test]
fn expect_is_refused() {
    let long = "A".repeat(65537);
    for (args, message) in [
        (ExpectArgs { pattern: s(""), ..expect_args() }, "pattern 不能为空"),
        (
            ExpectArgs { pattern: long.clone(), pattern_mode: some("text"), ..expect_args() },
            "pattern exceeds the limit of 65536 bytes",
        ),
        (
            ExpectArgs { pattern_mode: some("base64"), ..expect_args() },
            "mode 仅支持 hex 或 text，收到 \"base64\"",
        ),
        (
            ExpectArgs { pattern: s("zz"), ..expect_args() },
            "非法 hex 字符: 'z'（仅允许 0-9 A-F a-f 及分隔符）",
        ),
        (
            ExpectArgs { timeout_ms: Some(300_001), ..expect_args() },
            "timeout_ms 超出上限 300000ms（expect 期间其它需要 I/O 锁的工具调用会排队）",
        ),
        (
            ExpectArgs { match_scope: some("future"), ..expect_args() },
            "match_scope 仅支持 buffer 或 new，收到 \"future\"",
        ),
        (
            ExpectArgs { newline: some("cr"), ..expect_args() },
            "newline 仅支持 none、lf 或 crlf，收到 \"cr\"",
        ),
        (
            ExpectArgs { data: some("4"), ..expect_args() },
            "hex 字符串长度必须为偶数（当前有效字符数 1）",
        ),
        (ExpectArgs { port: s(""), ..expect_args() }, "port 不能为空"),
    ] {
        assert_eq!(uart_expect(args).unwrap_err(), message);
    }
}

fn expect_send_args() -> ExpectSendArgs {
    ExpectSendArgs {
        port: s("COM1"),
        pattern: s("41"),
        reply: s("R"),
        pattern_mode: None,
        reply_mode: some("text"),
        newline: some("crlf"),
        timeout_ms: None,
        consume: None,
        match_scope: None,
        ignore_ansi: None,
        read_mode: None,
    }
}

#[test]
fn expect_send_adds_the_line_end_to_the_reply() {
    let plan = uart_expect_send(expect_send_args()).unwrap();
    assert_eq!(plan.reply.as_deref(), Some(b"R\r\n".as_slice()));
    assert_eq!(plan.newline, "crlf");
    assert_eq!(plan.data, None);
    assert_eq!(
        uart_expect_send(ExpectSendArgs { reply: s(""), ..expect_send_args() }).unwrap_err(),
        "reply 不能为空"
    );
    assert_eq!(
        uart_expect_send(ExpectSendArgs { pattern: s(" "), ..expect_send_args() }).unwrap_err(),
        "pattern 不能为空"
    );
    assert!(
        uart_expect_send(ExpectSendArgs { match_scope: some("future"), ..expect_send_args() })
            .is_err()
    );
    assert!(
        uart_expect_send(ExpectSendArgs { reply_mode: some("x"), ..expect_send_args() }).is_err()
    );
    assert!(uart_expect_send(ExpectSendArgs { newline: some("x"), ..expect_send_args() }).is_err());
    assert!(
        uart_expect_send(ExpectSendArgs { timeout_ms: Some(300_001), ..expect_send_args() })
            .is_err()
    );
}

fn send_args() -> SendFileArgs {
    SendFileArgs {
        port: s("COM1"),
        path: s("fw.bin"),
        mode: None,
        chunk_size: None,
        gap_ms: None,
        max_duration_ms: None,
    }
}

#[test]
fn send_file_has_defaults_and_bounds() {
    let plan = uart_send_file(&send_args()).unwrap();
    assert_eq!((plan.mode, plan.chunk_size, plan.gap_ms), (SendMode::Text, 256, 0));
    for (args, message) in [
        (SendFileArgs { port: s(""), ..send_args() }, "port 不能为空"),
        (
            SendFileArgs { mode: some("Hex"), ..send_args() },
            "mode 必须是 text 或 base64，收到 \"hex\"",
        ),
        (SendFileArgs { chunk_size: Some(0), ..send_args() }, "chunk_size 必须 ≥ 1"),
        (
            SendFileArgs { chunk_size: Some(1024 * 1024 + 1), ..send_args() },
            "chunk_size must be in 1..=1048576 bytes",
        ),
        (
            SendFileArgs { gap_ms: Some(60_001), ..send_args() },
            "gap_ms 超出上限 60000ms（发送期间其它需要 I/O 锁的工具调用会排队）",
        ),
        (SendFileArgs { max_duration_ms: Some(0), ..send_args() }, "max_duration_ms 必须 ≥ 1"),
    ] {
        assert_eq!(uart_send_file(&args).unwrap_err(), message);
    }
}

#[test]
fn estimate_arguments() {
    let args = SendEstimateArgs {
        path: s("fw.bin"),
        mode: some("base64"),
        chunk_size: Some(64),
        gap_ms: None,
        baudrate: None,
    };
    let (plan, baudrate) = uart_send_estimate(&args).unwrap();
    assert_eq!((plan.mode, plan.chunk_size, baudrate), (SendMode::Base64, 64, 115200));
    let args = SendEstimateArgs { baudrate: Some(0), ..args };
    assert_eq!(uart_send_estimate(&args).unwrap_err(), "baudrate 必须 ≥ 1");
}

#[test]
fn files_are_checked() {
    let file = |is_file: bool| Ok(FileMeta { is_file, len: 34 });
    assert_eq!(send_file_meta("a", file(true), Ok(())), Ok(34));
    assert_eq!(send_file_meta(" ", file(true), Ok(())).unwrap_err(), "path 不能为空");
    assert_eq!(
        send_file_meta("a", Err(s("missing")), Ok(())).unwrap_err(),
        "无法访问文件 a: missing"
    );
    assert_eq!(send_file_meta(".", file(false), Ok(())).unwrap_err(), ". 不是普通文件");
    assert_eq!(
        send_file_meta("a", file(true), Err(s("denied"))).unwrap_err(),
        "打开文件 a 失败: denied"
    );
}

#[test]
fn tools_with_a_port_only() {
    assert!(uart_available(&AvailableArgs { port: s("COM1") }).is_ok());
    assert!(uart_clear(&ClearArgs { port: s("COM1") }).is_ok());
    assert!(uart_close(&CloseArgs { port: s("COM1") }).is_ok());
    assert!(uart_send_cancel(&SendCancelArgs { port: s("COM1") }).is_ok());
    assert!(uart_available(&AvailableArgs { port: s("") }).is_err());
    assert!(uart_clear(&ClearArgs { port: s(" ") }).is_err());
    assert!(uart_close(&CloseArgs { port: s("\n") }).is_err());
    assert!(uart_send_cancel(&SendCancelArgs { port: s("\u{85}") }).is_err());
}

#[test]
fn encodings() {
    assert_eq!(encode_send("41", "HEX").unwrap(), b"A");
    assert_eq!(encode_send("é", "text").unwrap(), "é".as_bytes());
    assert_eq!(
        encode_send("x", "Base64").unwrap_err(),
        "mode 仅支持 hex 或 text，收到 \"Base64\""
    );
    assert_eq!(encode_recv(b"A\n", "hex"), (s("41 0A"), s("hex")));
    assert_eq!(encode_recv("é\n".as_bytes(), "text"), (s("é\n"), s("text")));
    assert_eq!(encode_recv(b"A\x00", "text"), (s("41 00"), s("hex (text 降级)")));
    assert_eq!(encode_recv(b"A\x00", "Text-Escaped"), (s("A\\x00"), s("text-escaped")));
    assert_eq!(apply_newline(b"x".to_vec(), "lf"), b"x\n");
    assert_eq!(apply_newline(b"x".to_vec(), "crlf"), b"x\r\n");
    assert_eq!(apply_newline(b"x".to_vec(), "none"), b"x");
    assert!(parse_send_mode("Hex").is_ok() && parse_recv_mode("TEXT").is_ok());
    assert!(parse_newline("LF").is_ok());
    assert_eq!(parse_match_scope("Buffer"), Ok(MatchScope::Buffer));
}

#[test]
fn answers_can_be_sent_back() {
    let all: Vec<u8> = (0..=255u8).collect();
    let (data, mode) = encode_recv(&all, "hex");
    assert_eq!(encode_send(&data, &mode).unwrap(), all);
    let (data, mode) = encode_recv("中\t".as_bytes(), "text");
    assert_eq!(encode_send(&data, &mode).unwrap(), "中\t".as_bytes());
}

fn outcome(data: &[u8], reason: ReadReason, buffered: usize) -> ReadOutcome {
    ReadOutcome {
        data: data.to_vec(),
        reason,
        overflow_delta: 1,
        overflow_total: 2,
        buffered,
        new_data_observed: true,
    }
}

#[test]
fn answers_of_reads() {
    let r = read_result(outcome(b"AB", ReadReason::Idle, 0), "hex");
    assert_eq!((r.data.as_str(), r.bytes, r.mode.as_str()), ("41 42", 2, "hex"));
    assert_eq!(r.reason, "idle");
    assert_eq!((r.overflow_delta, r.overflow_total, r.buffered_bytes), (1, 2, 0));
    assert!(!r.pending && r.new_data_observed);
    let r = exchange_result(3, outcome(b"\x01", ReadReason::MaxBytes, 4), "text", s("lf"));
    assert_eq!((r.written, r.newline.as_str()), (3, "lf"));
    assert_eq!((r.read.mode.as_str(), r.read.reason.as_str()), ("hex (text 降级)", "max_bytes"));
    assert!(r.read.pending);
    assert_eq!(read_reason_str(ReadReason::Timeout), "timeout");
}

#[test]
fn answers_of_expectations() {
    let r = expect_result(
        ExpectOutcome {
            matched: true,
            data: b"ok".to_vec(),
            written: 3,
            reason: ExpectReason::Matched,
            overflow_delta: 0,
            overflow_total: 5,
            buffered: 1,
        },
        s("6F 6B"),
        "text",
        s("crlf"),
        MatchScope::New,
        true,
    );
    assert!(r.matched && r.pending && r.ignore_ansi);
    assert_eq!((r.pattern.as_str(), r.data.as_str(), r.bytes), ("6F 6B", "ok", 2));
    assert_eq!((r.mode.as_str(), r.newline.as_str()), ("text", "crlf"));
    assert_eq!((r.match_scope.as_str(), r.reason.as_str()), ("new", "matched"));
    assert_eq!((r.written, r.overflow_total, r.buffered_bytes), (3, 5, 1));
}

#[test]
fn answers_of_transfers() {
    let r = send_file_result(
        SendFileOutcome {
            reason: s("completed"),
            raw_bytes: 1,
            sent_bytes: 2,
            chunks: 3,
            elapsed_ms: 4,
            overflow_delta: 0,
            overflow_total: 0,
            device_error: None,
        },
        SendPlan { mode: SendMode::Base64, chunk_size: 57, gap_ms: 9 },
        Some(350),
    );
    assert_eq!((r.mode.as_str(), r.chunk_size, r.gap_ms), ("base64", 57, 9));
    assert_eq!(r.max_duration_ms, Some(350));
    assert_eq!(r.outcome.sent_bytes, 2);
    let r = send_cancel_result(SendProgress::default());
    assert!(!r.cancelled);
}

#[test]
fn the_command_line() {
    let parse = |args: &[&str]| parse_command(&args.iter().map(|a| s(a)).collect());
    assert!(matches!(parse(&[]), Command::Serve));
    assert!(matches!(parse(&["-h"]), Command::Help));
    assert!(matches!(parse(&["--help"]), Command::Help));
    assert!(matches!(parse(&["-V"]), Command::Version));
    assert!(matches!(parse(&["--version"]), Command::Version));
    assert!(matches!(parse(&["--list-ports"]), Command::ListPorts));
    assert!(matches!(parse(&["--list-ports", "x"]), Command::Unknown(o) if o == "--list-ports"));
    assert!(matches!(parse(&["x"]), Command::Unknown(o) if o == "x"));
}

#[test]
fn ports_are_written_in_columns() {
    let lines = port_lines(&vec![
        PortInfo { name: s("COM3"), port_type: s("usb"), description: s("vid=1a86") },
        PortInfo { name: s("/dev/ttyUSB000"), port_type: s("bluetooth!!"), description: s("") },
    ]);
    assert_eq!(lines[0], "本机可用串口（2 个）:");
    assert_eq!(lines[1], format!("  {:<12} {:<10} {}", "COM3", "usb", "vid=1a86"));
    assert_eq!(lines[2], format!("  {:<12} {:<10} {}", "/dev/ttyUSB000", "bluetooth!!", ""));
}

#[test]
fn a_reader_drains_the_device() {
    assert!(matches!(next_action(ReaderEvent::Begun, false), ReaderAction::Wait));
    assert!(matches!(next_action(ReaderEvent::Waited(Ok(true)), false), ReaderAction::Query));
    assert!(matches!(next_action(ReaderEvent::Waited(Ok(false)), false), ReaderAction::Wait));
    assert!(matches!(next_action(ReaderEvent::Queried(Ok(5)), false), ReaderAction::Read));
    assert!(matches!(next_action(ReaderEvent::Queried(Ok(0)), false), ReaderAction::Wait));
    assert!(matches!(next_action(ReaderEvent::Read(Ok(5)), true), ReaderAction::Keep(5)));
    assert!(matches!(next_action(ReaderEvent::Read(Ok(0)), false), ReaderAction::Wait));
    assert!(matches!(next_action(ReaderEvent::Kept, false), ReaderAction::Query));
    for fault in [ReadFault::TimedOut, ReadFault::WouldBlock] {
        let event = ReaderEvent::Read(Err((fault, s("later"))));
        assert!(matches!(next_action(event, false), ReaderAction::Wait));
    }
}

#[test]
fn a_reader_stops_when_asked() {
    assert!(matches!(next_action(ReaderEvent::Begun, true), ReaderAction::Stopped));
    assert!(matches!(next_action(ReaderEvent::Waited(Ok(true)), true), ReaderAction::Stopped));
    assert!(matches!(next_action(ReaderEvent::Waited(Ok(false)), true), ReaderAction::Stopped));
    assert!(matches!(next_action(ReaderEvent::Kept, true), ReaderAction::Stopped));
    assert!(matches!(next_action(ReaderEvent::Queried(Ok(0)), true), ReaderAction::Stopped));
}

#[test]
fn a_reader_gives_up_when_the_device_fails() {
    let failed = |event: ReaderEvent| match next_action(event, false) {
        ReaderAction::Failed(m) => m,
        other => panic!("{other:?}"),
    };
    assert_eq!(failed(ReaderEvent::Waited(Err(s("gone")))), "等待串口事件失败: gone");
    assert_eq!(failed(ReaderEvent::Queried(Err(s("gone")))), "查询串口可读字节数失败: gone");
    assert_eq!(
        failed(ReaderEvent::Read(Err((ReadFault::Other, s("gone"))))),
        "读取串口失败: gone"
    );
}

#[test]
fn waits_are_judged() {
    let none = Readiness { readable: false, hung_up: false, invalid: false };
    let readable = Readiness { readable: true, ..none };
    let hung_up = Readiness { hung_up: true, ..none };
    let invalid = Readiness { invalid: true, ..none };
    assert_eq!(judge_wait(readable, readable), WaitVerdict::Woken);
    assert_eq!(judge_wait(none, hung_up), WaitVerdict::Woken);
    assert_eq!(judge_wait(Readiness { hung_up: true, ..readable }, none), WaitVerdict::Ready);
    assert_eq!(judge_wait(hung_up, none), WaitVerdict::Gone);
    assert_eq!(judge_wait(invalid, none), WaitVerdict::Gone);
    assert_eq!(judge_wait(none, none), WaitVerdict::Ready);
}

#[test]
fn the_timer_is_switched_by_the_first_and_the_last() {
    let mut t = TimerCount::new();
    assert!(t.acquire());
    assert!(!t.acquire());
    assert_eq!(t.readers(), 2);
    assert!(!t.release());
    assert!(t.release());
    assert_eq!(t.readers(), 0);
}
