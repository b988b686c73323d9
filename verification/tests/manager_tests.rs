use ser2mcp::io::{Io, Next};
use ser2mcp::manager::{
    DEFAULT_BAUDRATE, DEFAULT_BUFFER_SIZE, DEFAULT_READ_TIMEOUT_MS, DataBits, DetectedPort,
    FlowControl, OpenStage, Parity, PortConfig, PortKind, SerialManager, Setting, StopBits,
    parse_baudrate, parse_data_bits, parse_flow_control, parse_parity, parse_stop_bits,
};

fn open(m: &mut SerialManager, name: &str, buffer_size: usize) -> Result<(), String> {
    m.open(
        name,
        115200,
        DataBits::Eight,
        Parity::Off,
        StopBits::One,
        FlowControl::Off,
        500,
        buffer_size,
        Ok(()),
        0,
    )
}

#[test]
fn settings_are_parsed() {
    assert_eq!(parse_data_bits(5), Ok(DataBits::Five));
    assert_eq!(parse_data_bits(8), Ok(DataBits::Eight));
    assert_eq!(parse_data_bits(9).unwrap_err(), "data_bits 仅支持 5-8，收到 9");
    assert_eq!(parse_stop_bits(2), Ok(StopBits::Two));
    assert_eq!(parse_stop_bits(0).unwrap_err(), "stop_bits 仅支持 1 或 2，收到 0");
    assert_eq!(parse_parity("Even"), Ok(Parity::Even));
    assert_eq!(
        parse_parity("Mark").unwrap_err(),
        "parity 仅支持 none/even/odd，收到 \"Mark\""
    );
    assert_eq!(parse_flow_control("RTS/CTS"), Ok(FlowControl::Hardware));
    assert_eq!(parse_flow_control("xon_xoff"), Ok(FlowControl::Software));
    assert_eq!(
        parse_flow_control("dtr").unwrap_err(),
        "flow_control 仅支持 none/software/hardware，收到 \"dtr\""
    );
    assert_eq!(parse_baudrate(50), Ok(50));
    assert_eq!(parse_baudrate(4_000_000), Ok(4_000_000));
    assert_eq!(
        parse_baudrate(49).unwrap_err(),
        "baudrate 超出合理范围 (50-4,000,000)，收到 49"
    );
    assert!(parse_baudrate(4_000_001).is_err());
}

#[test]
fn default_settings() {
    let c = PortConfig::default();
    assert_eq!(c.baudrate, DEFAULT_BAUDRATE);
    assert_eq!(c.data_bits, DataBits::Eight);
    assert_eq!(c.parity, Parity::Off);
    assert_eq!(c.stop_bits, StopBits::One);
    assert_eq!(c.flow_control, FlowControl::Off);
    assert_eq!(c.read_timeout_ms, DEFAULT_READ_TIMEOUT_MS);
    assert_eq!(c.buffer_size, DEFAULT_BUFFER_SIZE);
}

#[test]
fn ports_are_listed_with_their_descriptions() {
    let m = SerialManager::new();
    let found = vec![
        DetectedPort {
            name: "COM3".to_string(),
            kind: PortKind::Usb {
                vid: 0x1a86,
                pid: 0x7523,
                serial_number: None,
                product: Some("CH340".to_string()),
            },
        },
        DetectedPort {
            name: "COM4".to_string(),
            kind: PortKind::Usb {
                vid: 0x0a,
                pid: 0,
                serial_number: Some("X1".to_string()),
                product: None,
            },
        },
        DetectedPort { name: "b".to_string(), kind: PortKind::Bluetooth },
        DetectedPort { name: "p".to_string(), kind: PortKind::Pci },
        DetectedPort { name: "u".to_string(), kind: PortKind::Unknown },
    ];
    let list = m.list_ports(Ok(found)).unwrap();
    assert_eq!(list[0].name, "COM3");
    assert_eq!(list[0].port_type, "usb");
    assert_eq!(list[0].description, "vid=1a86 pid=7523 serial= product=CH340");
    assert_eq!(list[1].description, "vid=000a pid=0000 serial=X1 product=");
    assert_eq!(list[2].port_type, "bluetooth");
    assert_eq!(list[3].port_type, "pci");
    assert_eq!(list[4].port_type, "unknown");
    assert_eq!(list[4].description, "");
    assert_eq!(
        m.list_ports(Err("no udev".to_string())).unwrap_err(),
        "枚举串口失败: no udev"
    );
}

#[test]
fn a_port_cannot_be_opened_twice() {
    let mut m = SerialManager::new();
    assert_eq!(m.may_open("COM1"), Ok(()));
    assert_eq!(open(&mut m, "COM1", 16), Ok(()));
    let message = "端口 COM1 已打开，请先调用 uart_close";
    assert_eq!(m.may_open("COM1").unwrap_err(), message);
    assert_eq!(open(&mut m, "COM1", 16).unwrap_err(), message);
    assert_eq!(open(&mut m, "COM2", 16), Ok(()));
}

#[test]
fn a_device_that_does_not_open_leaves_no_port() {
    let mut m = SerialManager::new();
    for (stage, message) in [
        (OpenStage::Device, "打开 COM1 失败: busy"),
        (OpenStage::Handle, "克隆串口读句柄失败: busy"),
        (OpenStage::Reader, "初始化读线程失败: busy"),
        (OpenStage::Thread, "启动读线程失败: busy"),
    ] {
        let r = m.open(
            "COM1",
            9600,
            DataBits::Eight,
            Parity::Off,
            StopBits::One,
            FlowControl::Off,
            500,
            16,
            Err((stage, "busy".to_string())),
            0,
        );
        assert_eq!(r.unwrap_err(), message);
        assert!(!m.available("COM1").open);
    }
}

#[test]
fn the_status_shows_settings_and_buffer() {
    let mut m = SerialManager::new();
    let info = m.available("COM1");
    assert!(!info.open && !info.pending);
    assert_eq!((info.port, info.baudrate, info.buffered_bytes), (None, None, 0));
    m.open(
        "COM1",
        9600,
        DataBits::Seven,
        Parity::Even,
        StopBits::Two,
        FlowControl::Software,
        250,
        4,
        Ok(()),
        0,
    )
    .unwrap();
    m.receive("COM1", b"abcdef", 1).unwrap();
    m.reader_failed("COM1", "gone".to_string()).unwrap();
    let info = m.available("COM1");
    assert!(info.open && info.pending);
    assert_eq!(info.port.as_deref(), Some("COM1"));
    assert_eq!(info.baudrate, Some(9600));
    assert_eq!(info.data_bits, Some(7));
    assert_eq!(info.parity.as_deref(), Some("even"));
    assert_eq!(info.stop_bits, Some(2));
    assert_eq!(info.flow_control.as_deref(), Some("software"));
    assert_eq!(info.read_timeout_ms, Some(250));
    assert_eq!(info.buffer_size, Some(4));
    assert_eq!(info.buffered_bytes, 4);
    assert_eq!(info.overflow_total, 2);
    assert_eq!(info.read_error.as_deref(), Some("gone"));
    assert!(!info.send.active && info.send.last_reason.is_none());
}

#[test]
fn clearing_drops_what_is_unread() {
    let mut m = SerialManager::new();
    assert_eq!(
        m.clear("COM1").unwrap_err(),
        "端口 COM1 未打开，请先调用 uart_open"
    );
    open(&mut m, "COM1", 16).unwrap();
    open(&mut m, "COM2", 16).unwrap();
    m.receive("COM1", b"abc", 0).unwrap();
    m.receive("COM2", b"x", 0).unwrap();
    assert_eq!(m.clear("COM1"), Ok(3));
    assert_eq!(m.clear("COM1"), Ok(0));
    assert_eq!(m.available("COM2").buffered_bytes, 1);
    assert!(m.receive("COM3", b"x", 0).is_err());
    assert!(m.reader_failed("COM3", String::new()).is_err());
}

#[test]
fn settings_are_changed_one_by_one() {
    let mut m = SerialManager::new();
    open(&mut m, "COM1", 16).unwrap();
    let list = m
        .configure(
            "COM1",
            Some(9600),
            None,
            Some(Parity::Odd),
            Some(StopBits::Two),
            Some(FlowControl::Hardware),
            Some(7),
        )
        .unwrap();
    assert_eq!(
        list,
        vec![
            Setting::Baudrate(9600),
            Setting::Parity(Parity::Odd),
            Setting::StopBits(StopBits::Two),
            Setting::FlowControl(FlowControl::Hardware),
            Setting::ReadTimeout(7),
        ]
    );
    m.apply("COM1", list[0], Ok(())).unwrap();
    assert_eq!(
        m.apply("COM1", list[1], Err("no".to_string())).unwrap_err(),
        "设置校验位失败: no"
    );
    let info = m.available("COM1");
    assert_eq!(info.baudrate, Some(9600));
    assert_eq!(info.parity.as_deref(), Some("none"));
    assert_eq!(info.stop_bits, Some(1));
    m.apply("COM1", Setting::DataBits(DataBits::Five), Ok(())).unwrap();
    m.apply("COM1", Setting::ReadTimeout(7), Ok(())).unwrap();
    let info = m.available("COM1");
    assert_eq!((info.data_bits, info.read_timeout_ms), (Some(5), Some(7)));
    for (setting, message) in [
        (Setting::Baudrate(1), "设置波特率失败: e"),
        (Setting::DataBits(DataBits::Six), "设置数据位失败: e"),
        (Setting::StopBits(StopBits::One), "设置停止位失败: e"),
        (Setting::FlowControl(FlowControl::Off), "设置流控失败: e"),
        (Setting::ReadTimeout(1), "设置读超时失败: e"),
    ] {
        assert_eq!(m.apply("COM1", setting, Err("e".to_string())).unwrap_err(), message);
    }
    assert!(m.configure("COM2", None, None, None, None, None, None).is_err());
    assert!(m.apply("COM2", Setting::Baudrate(9600), Ok(())).is_err());
}

#[test]
fn closing_refuses_new_operations() {
    let mut m = SerialManager::new();
    open(&mut m, "COM1", 16).unwrap();
    open(&mut m, "COM2", 16).unwrap();
    let op = m.close("COM1", 0).unwrap();
    assert!(matches!(m.close_step(&op, 0), Next::Done(())));
    let e = m.check("COM1").unwrap_err();
    assert!(e.contains("正在关闭"));
    assert!(m.write("COM1", b"x".to_vec()).unwrap_err().contains("正在关闭"));
    assert!(m.read("COM1", 1, 1, 1, 0).unwrap_err().contains("正在关闭"));
    assert!(m.close("COM1", 0).unwrap_err().contains("正在关闭"));
    assert!(m.may_open("COM1").is_err());
    assert_eq!(m.check("COM2"), Ok(()));
    assert_eq!(m.close_finished("COM1"), Ok(()));
    assert!(m.write("COM1", b"x".to_vec()).unwrap_err().contains("未打开"));
    assert_eq!(
        m.close_finished("COM1").unwrap_err(),
        "端口 COM1 未打开，请先调用 uart_open"
    );
    assert_eq!(open(&mut m, "COM1", 16), Ok(()));
    assert!(m.available("COM2").open);
}

#[test]
fn closing_waits_for_a_transfer_or_gives_up() {
    let mut m = SerialManager::new();
    open(&mut m, "COM1", 16).unwrap();
    m.send_file("COM1", 10, 0, None, 0).unwrap();
    let op = m.close("COM1", 5).unwrap();
    assert!(matches!(m.close_step(&op, 30_000_000_004), Next::Do(Io::Wait)));
    assert!(m.check("COM1").is_err());
    match m.close_step(&op, 30_000_000_005) {
        Next::Fail(e) => assert_eq!(e, "端口 COM1 的文件发送未在 30s 内退出，关闭中止"),
        other => panic!("{other:?}"),
    }
    assert_eq!(m.check("COM1"), Ok(()));
    assert!(m.available("COM1").open);
}

#[test]
fn cancelling_reports_the_transfer() {
    let mut m = SerialManager::new();
    assert!(m.cancel_send("COM1").is_err());
    open(&mut m, "COM1", 16).unwrap();
    assert!(!m.cancel_send("COM1").unwrap().active);
    m.send_file("COM1", 10, 0, None, 0).unwrap();
    let snapshot = m.cancel_send("COM1").unwrap();
    assert!(snapshot.active);
    assert_eq!(snapshot.total_bytes, 10);
}
