//! The tools: what their arguments mean, when they are refused, and what they answer.
//!
//! For each tool a function turns the arguments into a plan, or says why they are refused. The
//! caller carries the plan out with the manager, and turns what came of it into the answer.
//!
//! Serial data are bytes; arguments and answers are text. Data travel as hexadecimal (`hex`), as
//! text (`text`), or, in answers, as text with escapes (`text-escaped`).

use vstd::prelude::*;
use vstd::string::StringExecFns;
use vstd::utf8::*;

use crate::hex;
use crate::io;
use crate::manager;
use crate::manager::DataBits;
use crate::manager::ExpectOutcome;
use crate::manager::ExpectReason;
use crate::manager::FlowControl;
use crate::manager::MatchScope;
use crate::manager::Parity;
use crate::manager::PortConfig;
use crate::manager::ReadOutcome;
use crate::manager::ReadReason;
use crate::manager::SendFileOutcome;
use crate::manager::SendProgress;
use crate::manager::StopBits;
use crate::sendfile;
use crate::sendfile::SendMode;
use crate::text;

verus! {

/// The arguments of `uart_open`.
#[derive(Debug)]
pub struct OpenArgs {
    /// The port's name.
    pub port: String,
    /// The baud rate: 50 to 4000000, 115200 if not given.
    pub baudrate: Option<u32>,
    /// The data bits: 5 to 8, 8 if not given.
    pub data_bits: Option<u8>,
    /// The parity: none, even or odd; none if not given.
    pub parity: Option<String>,
    /// The stop bits: 1 or 2, 1 if not given.
    pub stop_bits: Option<u8>,
    /// The flow control: none, software or hardware; none if not given.
    pub flow_control: Option<String>,
    /// The upper bound for one read of the device, in milliseconds; 500 if not given.
    pub read_timeout_ms: Option<u64>,
    /// The size of the buffer: up to 16 MiB, 1 MiB if not given.
    pub buffer_size: Option<usize>,
    /// Whether bytes that the driver still holds are dropped; so if not given.
    pub discard_on_open: Option<bool>,
}

/// The arguments of `uart_configure`.
#[derive(Debug)]
pub struct ConfigureArgs {
    /// The port's name.
    pub port: String,
    /// The baud rate.
    pub baudrate: Option<u32>,
    /// The data bits.
    pub data_bits: Option<u8>,
    /// The parity.
    pub parity: Option<String>,
    /// The stop bits.
    pub stop_bits: Option<u8>,
    /// The flow control.
    pub flow_control: Option<String>,
    /// The upper bound for one read of the device, in milliseconds.
    pub read_timeout_ms: Option<u64>,
}

/// The arguments of `uart_write`.
#[derive(Debug)]
pub struct WriteArgs {
    /// The port's name.
    pub port: String,
    /// What to write.
    pub data: String,
    /// How it is encoded: hex, which is the default, or text.
    pub mode: Option<String>,
    /// The line end that follows: none, which is the default, lf or crlf.
    pub newline: Option<String>,
}

/// The arguments of `uart_read`.
#[derive(Debug)]
pub struct ReadArgs {
    /// The port's name.
    pub port: String,
    /// How long no byte must have come in, in milliseconds; 300 if not given.
    pub idle_ms: Option<u64>,
    /// How many unread bytes are enough; 65536 if not given.
    pub max_bytes: Option<usize>,
    /// How long to wait at most, in milliseconds: up to 300000, 5000 if not given.
    pub timeout_ms: Option<u64>,
    /// How the answer is encoded: hex, which is the default, text or text-escaped.
    pub read_mode: Option<String>,
}

/// The arguments of `uart_exchange`.
#[derive(Debug)]
pub struct ExchangeArgs {
    /// The port's name.
    pub port: String,
    /// What to write.
    pub data: String,
    /// How it is encoded.
    pub mode: Option<String>,
    /// The line end that follows.
    pub newline: Option<String>,
    /// How long no byte must have come in, in milliseconds.
    pub idle_ms: Option<u64>,
    /// How many unread bytes are enough.
    pub max_bytes: Option<usize>,
    /// How long to wait at most, in milliseconds.
    pub timeout_ms: Option<u64>,
    /// How the answer is encoded.
    pub read_mode: Option<String>,
}

/// The arguments of `uart_available`.
#[derive(Debug)]
pub struct AvailableArgs {
    /// The port's name.
    pub port: String,
}

/// The arguments of `uart_clear`.
#[derive(Debug)]
pub struct ClearArgs {
    /// The port's name.
    pub port: String,
}

/// The arguments of `uart_close`.
#[derive(Debug)]
pub struct CloseArgs {
    /// The port's name.
    pub port: String,
}

/// The arguments of `uart_expect`.
#[derive(Debug)]
pub struct ExpectArgs {
    /// The port's name.
    pub port: String,
    /// What is expected: not empty, at most 65536 bytes.
    pub pattern: String,
    /// How the pattern is encoded: hex, which is the default, or text.
    pub pattern_mode: Option<String>,
    /// How long to wait at most, in milliseconds: up to 300000, 5000 if not given.
    pub timeout_ms: Option<u64>,
    /// Whether the bytes up to the end of the pattern are taken; so if not given.
    pub consume: Option<bool>,
    /// Which bytes count: buffer, which is the default, or new.
    pub match_scope: Option<String>,
    /// Whether control sequences are skipped; not if not given.
    pub ignore_ansi: Option<bool>,
    /// What to write first, if anything.
    pub data: Option<String>,
    /// How it is encoded.
    pub mode: Option<String>,
    /// The line end that follows it.
    pub newline: Option<String>,
    /// How the answer is encoded.
    pub read_mode: Option<String>,
}

/// The arguments of `uart_expect_send`.
#[derive(Debug)]
pub struct ExpectSendArgs {
    /// The port's name.
    pub port: String,
    /// What is expected: not empty, at most 65536 bytes.
    pub pattern: String,
    /// What is written as soon as the pattern is found.
    pub reply: String,
    /// How the pattern is encoded.
    pub pattern_mode: Option<String>,
    /// How the reply is encoded.
    pub reply_mode: Option<String>,
    /// The line end that follows the reply.
    pub newline: Option<String>,
    /// How long to wait at most, in milliseconds.
    pub timeout_ms: Option<u64>,
    /// Whether the bytes up to the end of the pattern are taken; so if not given.
    pub consume: Option<bool>,
    /// Which bytes count.
    pub match_scope: Option<String>,
    /// Whether control sequences are skipped.
    pub ignore_ansi: Option<bool>,
    /// How the answer is encoded.
    pub read_mode: Option<String>,
}

/// The arguments of `uart_send_file`.
#[derive(Debug)]
pub struct SendFileArgs {
    /// The port's name.
    pub port: String,
    /// The file's path.
    pub path: String,
    /// How the file is sent: text, which is the default, or base64.
    pub mode: Option<String>,
    /// How many bytes of the file make a chunk: up to 1 MiB, 256 if not given.
    pub chunk_size: Option<usize>,
    /// The pause after each chunk, in milliseconds: up to 60000, none if not given.
    pub gap_ms: Option<u64>,
    /// How long the transfer may take, in milliseconds; unlimited if not given.
    pub max_duration_ms: Option<u64>,
}

/// The arguments of `uart_send_estimate`.
#[derive(Debug)]
pub struct SendEstimateArgs {
    /// The file's path.
    pub path: String,
    /// How the file is sent.
    pub mode: Option<String>,
    /// How many bytes of the file make a chunk.
    pub chunk_size: Option<usize>,
    /// The pause after each chunk, in milliseconds.
    pub gap_ms: Option<u64>,
    /// The baud rate; 115200 if not given.
    pub baudrate: Option<u32>,
}

/// The arguments of `uart_send_cancel`.
#[derive(Debug)]
pub struct SendCancelArgs {
    /// The port's name.
    pub port: String,
}

/// A text that was given, or another one.
pub open spec fn or_text(s: Option<String>, default: Seq<char>) -> Seq<char> {
    match s {
        Some(t) => t@,
        None => default,
    }
}

/// A text that was given, or another one.
fn text_or(s: &Option<String>, default: &str) -> (r: String)
    ensures
        r@ == or_text(*s, default@),
{
    match s {
        Some(t) => t.clone(),
        None => default.to_owned(),
    }
}

/// The first of two refusals.
pub open spec fn or_else(a: Option<Seq<char>>, b: Option<Seq<char>>) -> Option<Seq<char>> {
    match a {
        Some(e) => Some(e),
        None => b,
    }
}

/// A check that went well, or the message.
pub open spec fn check_is(r: Result<(), String>, error: Option<Seq<char>>) -> bool {
    match r {
        Ok(_) => error is None,
        Err(e) => error == Some(e@),
    }
}

/// Bytes, or a message, as values.
pub open spec fn bytes_or_error(r: Result<Vec<u8>, String>) -> Result<Seq<u8>, Seq<char>> {
    match r {
        Ok(b) => Ok(b@),
        Err(e) => Err(e@),
    }
}

/// The message of a result that has one.
pub open spec fn error_in(r: Result<Seq<u8>, Seq<char>>) -> Option<Seq<char>> {
    match r {
        Ok(_) => None,
        Err(e) => Some(e),
    }
}

/// The port must have a name.
pub open spec fn port_error(port: Seq<char>) -> Option<Seq<char>> {
    if text::is_blank(port) {
        Some("port 不能为空"@)
    } else {
        None
    }
}

fn require_port(port: &str) -> (r: Result<(), String>)
    ensures
        check_is(r, port_error(port@)),
{
    if text::blank(port) {
        Err("port 不能为空".to_owned())
    } else {
        Ok(())
    }
}

/// A message with a number in it.
fn numbered(before: &str, n: u64, after: &str) -> (r: String)
    ensures
        r@ == before@ + text::decimal(n as nat) + after@,
{
    let mut out = before.to_owned();
    out.append(text::decimal_text(n).as_str());
    out.append(after);
    out
}

/// The buffer must hold something, and not too much.
pub open spec fn buffer_size_error(value: usize) -> Option<Seq<char>> {
    if value == 0 || value > manager::MAX_BUFFER_SIZE {
        Some(
            "buffer_size must be in 1..="@ + text::decimal(manager::MAX_BUFFER_SIZE as nat)
                + " bytes"@,
        )
    } else {
        None
    }
}

fn validate_buffer_size(value: usize) -> (r: Result<(), String>)
    ensures
        check_is(r, buffer_size_error(value)),
{
    if value == 0 || value > manager::MAX_BUFFER_SIZE {
        return Err(
            numbered("buffer_size must be in 1..=", manager::MAX_BUFFER_SIZE as u64, " bytes"),
        );
    }
    Ok(())
}

/// A chunk must hold something, and not too much.
pub open spec fn chunk_size_error(value: Option<usize>) -> Option<Seq<char>> {
    match value {
        None => None,
        Some(v) => if v == 0 {
            Some("chunk_size 必须 ≥ 1"@)
        } else if v > sendfile::MAX_CHUNK_SIZE {
            Some(
                "chunk_size must be in 1..="@ + text::decimal(sendfile::MAX_CHUNK_SIZE as nat)
                    + " bytes"@,
            )
        } else {
            None
        },
    }
}

fn validate_chunk_size(value: Option<usize>) -> (r: Result<(), String>)
    ensures
        check_is(r, chunk_size_error(value)),
{
    match value {
        None => Ok(()),
        Some(v) => if v == 0 {
            Err("chunk_size 必须 ≥ 1".to_owned())
        } else if v > sendfile::MAX_CHUNK_SIZE {
            Err(numbered("chunk_size must be in 1..=", sendfile::MAX_CHUNK_SIZE as u64, " bytes"))
        } else {
            Ok(())
        },
    }
}

/// The pause between chunks must not be too long.
pub open spec fn gap_error(gap_ms: u64) -> Option<Seq<char>> {
    if gap_ms > manager::MAX_SEND_GAP_MS {
        Some(
            "gap_ms 超出上限 "@ + text::decimal(manager::MAX_SEND_GAP_MS as nat)
                + "ms（发送期间其它需要 I/O 锁的工具调用会排队）"@,
        )
    } else {
        None
    }
}

fn validate_gap(gap_ms: u64) -> (r: Result<(), String>)
    ensures
        check_is(r, gap_error(gap_ms)),
{
    if gap_ms > manager::MAX_SEND_GAP_MS {
        return Err(
            numbered(
                "gap_ms 超出上限 ",
                manager::MAX_SEND_GAP_MS,
                "ms（发送期间其它需要 I/O 锁的工具调用会排队）",
            ),
        );
    }
    Ok(())
}

/// A limit on the duration must leave some time.
pub open spec fn duration_error(max_duration_ms: Option<u64>) -> Option<Seq<char>> {
    if max_duration_ms == Some(0u64) {
        Some("max_duration_ms 必须 ≥ 1"@)
    } else {
        None
    }
}

fn validate_duration(max_duration_ms: Option<u64>) -> (r: Result<(), String>)
    ensures
        check_is(r, duration_error(max_duration_ms)),
{
    match max_duration_ms {
        Some(ms) => if ms == 0 {
            Err("max_duration_ms 必须 ≥ 1".to_owned())
        } else {
            Ok(())
        },
        None => Ok(()),
    }
}

/// A read must not wait too long.
pub open spec fn read_timeout_error(value: u64) -> Option<Seq<char>> {
    if value > manager::MAX_READ_TIMEOUT_MS {
        Some(
            "timeout_ms exceeds the limit of "@ + text::decimal(manager::MAX_READ_TIMEOUT_MS as nat)
                + "ms"@,
        )
    } else {
        None
    }
}

fn validate_read_timeout(value: u64) -> (r: Result<(), String>)
    ensures
        check_is(r, read_timeout_error(value)),
{
    if value > manager::MAX_READ_TIMEOUT_MS {
        return Err(
            numbered("timeout_ms exceeds the limit of ", manager::MAX_READ_TIMEOUT_MS, "ms"),
        );
    }
    Ok(())
}

/// An expectation must not wait too long.
pub open spec fn expect_timeout_error(value: u64) -> Option<Seq<char>> {
    if value > manager::MAX_EXPECT_TIMEOUT_MS {
        Some(
            "timeout_ms 超出上限 "@ + text::decimal(manager::MAX_EXPECT_TIMEOUT_MS as nat)
                + "ms（expect 期间其它需要 I/O 锁的工具调用会排队）"@,
        )
    } else {
        None
    }
}

fn validate_expect_timeout(value: u64) -> (r: Result<(), String>)
    ensures
        check_is(r, expect_timeout_error(value)),
{
    if value > manager::MAX_EXPECT_TIMEOUT_MS {
        return Err(
            numbered(
                "timeout_ms 超出上限 ",
                manager::MAX_EXPECT_TIMEOUT_MS,
                "ms（expect 期间其它需要 I/O 锁的工具调用会排队）",
            ),
        );
    }
    Ok(())
}

/// A pattern must not be too long.
pub open spec fn pattern_size_error(len: int) -> Option<Seq<char>> {
    if len > manager::MAX_PATTERN_SIZE {
        Some(
            "pattern exceeds the limit of "@ + text::decimal(manager::MAX_PATTERN_SIZE as nat)
                + " bytes"@,
        )
    } else {
        None
    }
}

fn validate_pattern_size(value: &Vec<u8>) -> (r: Result<(), String>)
    ensures
        check_is(r, pattern_size_error(value@.len() as int)),
{
    if value.len() > manager::MAX_PATTERN_SIZE {
        return Err(
            numbered("pattern exceeds the limit of ", manager::MAX_PATTERN_SIZE as u64, " bytes"),
        );
    }
    Ok(())
}

/// Bytes that must not be empty.
pub open spec fn empty_error(len: int, message: Seq<char>) -> Option<Seq<char>> {
    if len == 0 {
        Some(message)
    } else {
        None
    }
}

fn validate_not_empty(value: &Vec<u8>, message: &str) -> (r: Result<(), String>)
    ensures
        check_is(r, empty_error(value@.len() as int, message@)),
{
    if value.len() == 0 {
        Err(message.to_owned())
    } else {
        Ok(())
    }
}

/// What the system says of a file.
#[derive(Debug)]
pub struct FileMeta {
    /// It is a regular file.
    pub is_file: bool,
    /// Its size.
    pub len: u64,
}

/// The file that is to be sent must have a path, be there, be a regular file, and be readable.
pub open spec fn file_error(
    path: Seq<char>,
    meta: Result<FileMeta, String>,
    readable: Result<(), String>,
) -> Option<Seq<char>> {
    if text::is_blank(path) {
        Some("path 不能为空"@)
    } else {
        match meta {
            Err(e) => Some("无法访问文件 "@ + path + ": "@ + e@),
            Ok(m) => if !m.is_file {
                Some(path + " 不是普通文件"@)
            } else {
                match readable {
                    Err(e) => Some("打开文件 "@ + path + " 失败: "@ + e@),
                    Ok(_) => None,
                }
            },
        }
    }
}

/// Checks the file that is to be sent, given what the system says of it. Returns its size.
pub fn send_file_meta(
    path: &str,
    meta: Result<FileMeta, String>,
    readable: Result<(), String>,
) -> (r: Result<u64, String>)
    ensures
        match r {
            Ok(n) => file_error(path@, meta, readable) is None && n == meta->Ok_0.len,
            Err(e) => file_error(path@, meta, readable) == Some(e@),
        },
{
    if text::blank(path) {
        return Err("path 不能为空".to_owned());
    }
    match meta {
        Err(e) => {
            let mut m = "无法访问文件 ".to_owned();
            m.append(path);
            m.append(": ");
            m.append(e.as_str());
            Err(m)
        },
        Ok(m) => {
            if !m.is_file {
                return Err(io::caused(path, " 不是普通文件"));
            }
            match readable {
                Err(e) => {
                    let mut m = "打开文件 ".to_owned();
                    m.append(path);
                    m.append(" 失败: ");
                    m.append(e.as_str());
                    Err(m)
                },
                Ok(_) => Ok(m.len),
            }
        },
    }
}

/// The encoding of what is written must be hex or text.
pub open spec fn send_mode_error(mode: Seq<char>) -> Option<Seq<char>> {
    let m = text::lower(mode);
    if m == "hex"@ || m == "text"@ {
        None
    } else if m == "text-escaped"@ {
        Some("text-escaped 仅用于返回编码（read_mode），发送编码仅支持 hex 或 text"@)
    } else {
        Some("mode 仅支持 hex 或 text，收到 "@ + text::str_debug(m))
    }
}

/// Checks the encoding of what is written.
pub fn parse_send_mode(s: &str) -> (r: Result<(), String>)
    ensures
        check_is(r, send_mode_error(s@)),
{
    let folded = text::ascii_lower(s);
    let m = folded.as_str();
    if text::same(m, "hex") || text::same(m, "text") {
        Ok(())
    } else if text::same(m, "text-escaped") {
        Err(
            "text-escaped 仅用于返回编码（read_mode），发送编码仅支持 hex 或 text".to_owned(),
        )
    } else {
        Err(io::caused("mode 仅支持 hex 或 text，收到 ", text::debug_str(m).as_str()))
    }
}

/// The encoding of an answer must be hex, text or text-escaped.
pub open spec fn recv_mode_error(mode: Seq<char>) -> Option<Seq<char>> {
    let m = text::lower(mode);
    if m == "hex"@ || m == "text"@ || m == "text-escaped"@ {
        None
    } else {
        Some("read_mode 仅支持 hex、text 或 text-escaped，收到 "@ + text::str_debug(m))
    }
}

/// Checks the encoding of an answer.
pub fn parse_recv_mode(s: &str) -> (r: Result<(), String>)
    ensures
        check_is(r, recv_mode_error(s@)),
{
    let folded = text::ascii_lower(s);
    let m = folded.as_str();
    if text::same(m, "hex") || text::same(m, "text") || text::same(m, "text-escaped") {
        Ok(())
    } else {
        Err(
            io::caused(
                "read_mode 仅支持 hex、text 或 text-escaped，收到 ",
                text::debug_str(m).as_str(),
            ),
        )
    }
}

/// A line end must be none, lf or crlf.
pub open spec fn newline_error(newline: Seq<char>) -> Option<Seq<char>> {
    let n = text::lower(newline);
    if n == "none"@ || n == "lf"@ || n == "crlf"@ {
        None
    } else {
        Some("newline 仅支持 none、lf 或 crlf，收到 "@ + text::str_debug(n))
    }
}

/// Checks a line end.
pub fn parse_newline(s: &str) -> (r: Result<(), String>)
    ensures
        check_is(r, newline_error(s@)),
{
    let folded = text::ascii_lower(s);
    let n = folded.as_str();
    if text::same(n, "none") || text::same(n, "lf") || text::same(n, "crlf") {
        Ok(())
    } else {
        Err(io::caused("newline 仅支持 none、lf 或 crlf，收到 ", text::debug_str(n).as_str()))
    }
}

/// The scope that a name stands for, in upper or lower case.
pub open spec fn scope_of(s: Seq<char>) -> Result<MatchScope, Seq<char>> {
    let m = text::lower(s);
    if m == "buffer"@ {
        Ok(MatchScope::Buffer)
    } else if m == "new"@ {
        Ok(MatchScope::New)
    } else {
        Err("match_scope 仅支持 buffer 或 new，收到 "@ + text::str_debug(m))
    }
}

/// Why a scope is refused, if it is.
pub open spec fn scope_error(s: Seq<char>) -> Option<Seq<char>> {
    match scope_of(s) {
        Ok(_) => None,
        Err(e) => Some(e),
    }
}

/// Parses the name of a scope.
pub fn parse_match_scope(s: &str) -> (r: Result<MatchScope, String>)
    ensures
        match r {
            Ok(scope) => scope_of(s@) == Ok::<MatchScope, Seq<char>>(scope),
            Err(e) => scope_of(s@) == Err::<MatchScope, Seq<char>>(e@),
        },
{
    let folded = text::ascii_lower(s);
    let m = folded.as_str();
    if text::same(m, "buffer") {
        Ok(MatchScope::Buffer)
    } else if text::same(m, "new") {
        Ok(MatchScope::New)
    } else {
        Err(io::caused("match_scope 仅支持 buffer 或 new，收到 ", text::debug_str(m).as_str()))
    }
}

/// The name of a scope.
pub open spec fn scope_name(scope: MatchScope) -> Seq<char> {
    match scope {
        MatchScope::Buffer => "buffer"@,
        MatchScope::New => "new"@,
    }
}

/// The bytes of a line end.
pub open spec fn newline_bytes(newline: Seq<char>) -> Seq<u8> {
    if newline == "lf"@ {
        seq![10u8]
    } else if newline == "crlf"@ {
        seq![13u8, 10u8]
    } else {
        seq![]
    }
}

/// Adds a line end to data.
pub fn apply_newline(data: Vec<u8>, newline: &str) -> (r: Vec<u8>)
    ensures
        r@ == data@ + newline_bytes(newline@),
{
    let mut out = data;
    let ghost before = out@;
    if text::same(newline, "lf") {
        out.push(10);
    } else if text::same(newline, "crlf") {
        out.push(13);
        out.push(10);
    }
    assert(out@ =~= before + newline_bytes(newline@));
    out
}

/// The bytes that data stand for in an encoding.
pub open spec fn sent_bytes(data: Seq<char>, mode: Seq<char>) -> Result<Seq<u8>, Seq<char>> {
    let m = text::lower(mode);
    if m == "hex"@ {
        hex::decoded(data)
    } else if m == "text"@ {
        Ok(encode_utf8(data))
    } else {
        Err("mode 仅支持 hex 或 text，收到 "@ + text::str_debug(mode))
    }
}

/// Decodes what is to be written.
pub fn encode_send(data: &str, mode: &str) -> (r: Result<Vec<u8>, String>)
    ensures
        bytes_or_error(r) == sent_bytes(data@, mode@),
{
    let folded = text::ascii_lower(mode);
    let m = folded.as_str();
    if text::same(m, "hex") {
        hex::decode(data)
    } else if text::same(m, "text") {
        let mut out: Vec<u8> = Vec::new();
        out.extend_from_slice(data.as_bytes());
        assert(out@ =~= encode_utf8(data@));
        Ok(out)
    } else {
        Err(io::caused("mode 仅支持 hex 或 text，收到 ", text::debug_str(mode).as_str()))
    }
}

/// Bytes in an encoding, and the encoding that was used: bytes that are no text cannot be answered
/// as text, and are answered in hexadecimal.
pub open spec fn received(bytes: Seq<u8>, mode: Seq<char>) -> (Seq<char>, Seq<char>) {
    let m = text::lower(mode);
    if m == "hex"@ {
        (hex::hex_text(bytes), "hex"@)
    } else if m == "text-escaped"@ {
        (hex::escaped(bytes), "text-escaped"@)
    } else if hex::is_text_bytes(bytes) {
        (decode_utf8(bytes), "text"@)
    } else {
        (hex::hex_text(bytes), "hex (text 降级)"@)
    }
}

/// Encodes bytes for an answer. Returns the text, and the encoding that was used.
pub fn encode_recv(bytes: &[u8], mode: &str) -> (r: (String, String))
    ensures
        (r.0@, r.1@) == received(bytes@, mode@),
{
    let folded = text::ascii_lower(mode);
    let m = folded.as_str();
    if text::same(m, "hex") {
        (hex::encode(bytes), "hex".to_owned())
    } else if text::same(m, "text-escaped") {
        (hex::encode_escaped(bytes), "text-escaped".to_owned())
    } else if hex::is_text(bytes) {
        match text::from_utf8(bytes) {
            Ok(s) => (s.to_owned(), "text".to_owned()),
            Err(_) => (String::new(), "text".to_owned()),
        }
    } else {
        (hex::encode(bytes), "hex (text 降级)".to_owned())
    }
}

/// The word for why a read ended.
pub open spec fn read_reason_name(r: ReadReason) -> Seq<char> {
    match r {
        ReadReason::Idle => "idle"@,
        ReadReason::MaxBytes => "max_bytes"@,
        ReadReason::Timeout => "timeout"@,
    }
}

/// The word for why a read ended.
pub fn read_reason_str(r: ReadReason) -> (s: &'static str)
    ensures
        s@ == read_reason_name(r),
{
    match r {
        ReadReason::Idle => "idle",
        ReadReason::MaxBytes => "max_bytes",
        ReadReason::Timeout => "timeout",
    }
}

/// The settings with which a port is to be opened.
#[derive(Debug)]
pub struct OpenPlan {
    /// The port's name.
    pub port: String,
    /// The settings.
    pub config: PortConfig,
    /// Whether bytes that the driver still holds are dropped.
    pub discard_on_open: bool,
}

/// A baud rate must be within reason.
pub open spec fn baudrate_error(v: Option<u32>) -> Option<Seq<char>> {
    match v {
        Some(b) => if 50 <= b <= 4_000_000 {
            None
        } else {
            Some("baudrate 超出合理范围 (50-4,000,000)，收到 "@ + text::decimal(b as nat))
        },
        None => None,
    }
}

/// Data bits must be 5 to 8.
pub open spec fn data_bits_error(v: Option<u8>) -> Option<Seq<char>> {
    match v {
        Some(d) => if manager::data_bits_of(d) is Some {
            None
        } else {
            Some("data_bits 仅支持 5-8，收到 "@ + text::decimal(d as nat))
        },
        None => None,
    }
}

/// A parity must have a name that is known.
pub open spec fn parity_error(v: Option<String>) -> Option<Seq<char>> {
    match v {
        Some(s) => if manager::parity_of(s@) is Some {
            None
        } else {
            Some("parity 仅支持 none/even/odd，收到 "@ + text::str_debug(s@))
        },
        None => None,
    }
}

/// Stop bits must be 1 or 2.
pub open spec fn stop_bits_error(v: Option<u8>) -> Option<Seq<char>> {
    match v {
        Some(d) => if manager::stop_bits_of(d) is Some {
            None
        } else {
            Some("stop_bits 仅支持 1 或 2，收到 "@ + text::decimal(d as nat))
        },
        None => None,
    }
}

/// A flow control must have a name that is known.
pub open spec fn flow_control_error(v: Option<String>) -> Option<Seq<char>> {
    match v {
        Some(s) => if manager::flow_control_of(s@) is Some {
            None
        } else {
            Some("flow_control 仅支持 none/software/hardware，收到 "@ + text::str_debug(s@))
        },
        None => None,
    }
}

/// The settings that are given, with their meaning.
pub struct SettingsView {
    pub baudrate: Option<u32>,
    pub data_bits: Option<DataBits>,
    pub parity: Option<Parity>,
    pub stop_bits: Option<StopBits>,
    pub flow_control: Option<FlowControl>,
}

/// Why settings are refused, if they are: the first of them that is wrong says it.
pub open spec fn settings_error(
    baudrate: Option<u32>,
    data_bits: Option<u8>,
    parity: Option<String>,
    stop_bits: Option<u8>,
    flow_control: Option<String>,
) -> Option<Seq<char>> {
    or_else(
        baudrate_error(baudrate),
        or_else(
            data_bits_error(data_bits),
            or_else(
                parity_error(parity),
                or_else(stop_bits_error(stop_bits), flow_control_error(flow_control)),
            ),
        ),
    )
}

/// What settings mean.
pub open spec fn settings_meant(
    baudrate: Option<u32>,
    data_bits: Option<u8>,
    parity: Option<String>,
    stop_bits: Option<u8>,
    flow_control: Option<String>,
) -> SettingsView {
    SettingsView {
        baudrate,
        data_bits: match data_bits {
            Some(v) => manager::data_bits_of(v),
            None => None,
        },
        parity: match parity {
            Some(v) => manager::parity_of(v@),
            None => None,
        },
        stop_bits: match stop_bits {
            Some(v) => manager::stop_bits_of(v),
            None => None,
        },
        flow_control: match flow_control {
            Some(v) => manager::flow_control_of(v@),
            None => None,
        },
    }
}

/// Settings that are given.
#[derive(Debug)]
pub struct Settings {
    /// The baud rate.
    pub baudrate: Option<u32>,
    /// The data bits.
    pub data_bits: Option<DataBits>,
    /// The parity.
    pub parity: Option<Parity>,
    /// The stop bits.
    pub stop_bits: Option<StopBits>,
    /// The flow control.
    pub flow_control: Option<FlowControl>,
}

impl View for Settings {
    type V = SettingsView;

    open spec fn view(&self) -> SettingsView {
        SettingsView {
            baudrate: self.baudrate,
            data_bits: self.data_bits,
            parity: self.parity,
            stop_bits: self.stop_bits,
            flow_control: self.flow_control,
        }
    }
}

fn parse_settings(
    baudrate: Option<u32>,
    data_bits: Option<u8>,
    parity: &Option<String>,
    stop_bits: Option<u8>,
    flow_control: &Option<String>,
) -> (r: Result<Settings, String>)
    ensures
        match r {
            Ok(s) => settings_error(baudrate, data_bits, *parity, stop_bits, *flow_control) is None
                && s@ == settings_meant(baudrate, data_bits, *parity, stop_bits, *flow_control),
            Err(e) => settings_error(baudrate, data_bits, *parity, stop_bits, *flow_control)
                == Some(e@),
        },
{
    match baudrate {
        Some(v) => match manager::parse_baudrate(v) {
            Ok(_) => {},
            Err(e) => {
                return Err(e);
            },
        },
        None => {},
    }
    let data_bits: Option<DataBits> = match data_bits {
        Some(v) => match manager::parse_data_bits(v) {
            Ok(d) => Some(d),
            Err(e) => {
                return Err(e);
            },
        },
        None => None,
    };
    let parity: Option<Parity> = match parity {
        Some(v) => match manager::parse_parity(v.as_str()) {
            Ok(d) => Some(d),
            Err(e) => {
                return Err(e);
            },
        },
        None => None,
    };
    let stop_bits: Option<StopBits> = match stop_bits {
        Some(v) => match manager::parse_stop_bits(v) {
            Ok(d) => Some(d),
            Err(e) => {
                return Err(e);
            },
        },
        None => None,
    };
    let flow_control: Option<FlowControl> = match flow_control {
        Some(v) => match manager::parse_flow_control(v.as_str()) {
            Ok(d) => Some(d),
            Err(e) => {
                return Err(e);
            },
        },
        None => None,
    };
    Ok(Settings { baudrate, data_bits, parity, stop_bits, flow_control })
}

/// Why `uart_open` is refused, if it is.
pub open spec fn open_error(args: OpenArgs) -> Option<Seq<char>> {
    or_else(
        port_error(args.port@),
        or_else(
            settings_error(
                args.baudrate,
                args.data_bits,
                args.parity,
                args.stop_bits,
                args.flow_control,
            ),
            buffer_size_error(args.buffer_size.unwrap_or(manager::DEFAULT_BUFFER_SIZE)),
        ),
    )
}

/// The settings that `uart_open` asks for.
pub open spec fn open_config(args: OpenArgs) -> PortConfig {
    let s = settings_meant(
        args.baudrate,
        args.data_bits,
        args.parity,
        args.stop_bits,
        args.flow_control,
    );
    let d = manager::default_config();
    PortConfig {
        baudrate: s.baudrate.unwrap_or(d.baudrate),
        data_bits: s.data_bits.unwrap_or(d.data_bits),
        parity: s.parity.unwrap_or(d.parity),
        stop_bits: s.stop_bits.unwrap_or(d.stop_bits),
        flow_control: s.flow_control.unwrap_or(d.flow_control),
        read_timeout_ms: args.read_timeout_ms.unwrap_or(manager::DEFAULT_READ_TIMEOUT_MS),
        buffer_size: args.buffer_size.unwrap_or(manager::DEFAULT_BUFFER_SIZE),
    }
}

/// Plans `uart_open`: what is not given has its default.
pub fn uart_open(args: OpenArgs) -> (r: Result<OpenPlan, String>)
    ensures
        match r {
            Ok(plan) => {
                &&& open_error(args) is None
                &&& plan.port@ == args.port@
                &&& plan.config == open_config(args)
                &&& plan.discard_on_open == args.discard_on_open.unwrap_or(true)
            },
            Err(e) => open_error(args) == Some(e@),
        },
{
    match require_port(args.port.as_str()) {
        Ok(_) => {},
        Err(e) => {
            return Err(e);
        },
    }
    let s = match parse_settings(
        args.baudrate,
        args.data_bits,
        &args.parity,
        args.stop_bits,
        &args.flow_control,
    ) {
        Ok(s) => s,
        Err(e) => {
            return Err(e);
        },
    };
    let buffer_size: usize = args.buffer_size.unwrap_or(manager::DEFAULT_BUFFER_SIZE);
    match validate_buffer_size(buffer_size) {
        Ok(_) => {},
        Err(e) => {
            return Err(e);
        },
    }
    let d = PortConfig::default();
    let config = PortConfig {
        baudrate: s.baudrate.unwrap_or(d.baudrate),
        data_bits: s.data_bits.unwrap_or(d.data_bits),
        parity: s.parity.unwrap_or(d.parity),
        stop_bits: s.stop_bits.unwrap_or(d.stop_bits),
        flow_control: s.flow_control.unwrap_or(d.flow_control),
        read_timeout_ms: args.read_timeout_ms.unwrap_or(manager::DEFAULT_READ_TIMEOUT_MS),
        buffer_size,
    };
    Ok(
        OpenPlan {
            port: args.port,
            config,
            discard_on_open: args.discard_on_open.unwrap_or(true),
        },
    )
}

/// Why `uart_configure` is refused, if it is.
pub open spec fn configure_error(args: ConfigureArgs) -> Option<Seq<char>> {
    or_else(
        port_error(args.port@),
        settings_error(
            args.baudrate,
            args.data_bits,
            args.parity,
            args.stop_bits,
            args.flow_control,
        ),
    )
}

/// Plans `uart_configure`: the settings that are to be changed.
pub fn uart_configure(args: &ConfigureArgs) -> (r: Result<Settings, String>)
    ensures
        match r {
            Ok(s) => configure_error(*args) is None && s@ == settings_meant(
                args.baudrate,
                args.data_bits,
                args.parity,
                args.stop_bits,
                args.flow_control,
            ),
            Err(e) => configure_error(*args) == Some(e@),
        },
{
    match require_port(args.port.as_str()) {
        Ok(_) => {},
        Err(e) => {
            return Err(e);
        },
    }
    parse_settings(
        args.baudrate,
        args.data_bits,
        &args.parity,
        args.stop_bits,
        &args.flow_control,
    )
}

/// What `uart_write` is to write.
#[derive(Debug)]
pub struct WritePlan {
    /// The port's name.
    pub port: String,
    /// The bytes, with the line end.
    pub data: Vec<u8>,
    /// How they were encoded.
    pub mode: String,
    /// The line end.
    pub newline: String,
}

/// Why data are refused that are to be written, if they are.
pub open spec fn outgoing_error(
    data: Seq<char>,
    mode: Option<String>,
    newline: Option<String>,
) -> Option<Seq<char>> {
    let m = or_text(mode, "hex"@);
    or_else(
        send_mode_error(m),
        or_else(
            newline_error(text::lower(or_text(newline, "none"@))),
            error_in(sent_bytes(data, m)),
        ),
    )
}

/// The bytes that are to be written.
pub open spec fn outgoing_bytes(
    data: Seq<char>,
    mode: Option<String>,
    newline: Option<String>,
) -> Seq<u8> {
    sent_bytes(data, or_text(mode, "hex"@))->Ok_0 + newline_bytes(
        text::lower(or_text(newline, "none"@)),
    )
}

/// Decodes data that are to be written, and adds the line end. Returns the bytes, the encoding and
/// the line end.
fn outgoing(data: &str, mode: &Option<String>, newline: &Option<String>) -> (r: Result<
    (Vec<u8>, String, String),
    String,
>)
    ensures
        match r {
            Ok(o) => {
                &&& outgoing_error(data@, *mode, *newline) is None
                &&& o.0@ == outgoing_bytes(data@, *mode, *newline)
                &&& o.1@ == text::lower(or_text(*mode, "hex"@))
                &&& o.2@ == text::lower(or_text(*newline, "none"@))
            },
            Err(e) => outgoing_error(data@, *mode, *newline) == Some(e@),
        },
{
    let mode = text_or(mode, "hex");
    match parse_send_mode(mode.as_str()) {
        Ok(_) => {},
        Err(e) => {
            return Err(e);
        },
    }
    let newline = text::ascii_lower(text_or(newline, "none").as_str());
    match parse_newline(newline.as_str()) {
        Ok(_) => {},
        Err(e) => {
            return Err(e);
        },
    }
    match encode_send(data, mode.as_str()) {
        Ok(bytes) => Ok(
            (
                apply_newline(bytes, newline.as_str()),
                text::ascii_lower(mode.as_str()),
                newline,
            ),
        ),
        Err(e) => Err(e),
    }
}

/// Why `uart_write` is refused, if it is.
pub open spec fn write_error(args: WriteArgs) -> Option<Seq<char>> {
    or_else(port_error(args.port@), outgoing_error(args.data@, args.mode, args.newline))
}

/// Plans `uart_write`.
pub fn uart_write(args: WriteArgs) -> (r: Result<WritePlan, String>)
    ensures
        match r {
            Ok(plan) => {
                &&& write_error(args) is None
                &&& plan.port@ == args.port@
                &&& plan.data@ == outgoing_bytes(args.data@, args.mode, args.newline)
                &&& plan.mode@ == text::lower(or_text(args.mode, "hex"@))
                &&& plan.newline@ == text::lower(or_text(args.newline, "none"@))
            },
            Err(e) => write_error(args) == Some(e@),
        },
{
    match require_port(args.port.as_str()) {
        Ok(_) => {},
        Err(e) => {
            return Err(e);
        },
    }
    match outgoing(args.data.as_str(), &args.mode, &args.newline) {
        Err(e) => Err(e),
        Ok((data, mode, newline)) => Ok(WritePlan { port: args.port, data, mode, newline }),
    }
}

/// At least one byte.
pub open spec fn at_least_one(n: usize) -> usize {
    if n < 1 {
        1
    } else {
        n
    }
}

/// How `uart_read` is to read.
#[derive(Debug)]
pub struct ReadPlan {
    /// The port's name.
    pub port: String,
    /// How long no byte must have come in, in milliseconds.
    pub idle_ms: u64,
    /// How many unread bytes are enough.
    pub max_bytes: usize,
    /// How long to wait at most, in milliseconds.
    pub timeout_ms: u64,
    /// How the answer is encoded.
    pub read_mode: String,
}

/// Why the arguments of a read are refused, if they are.
pub open spec fn reading_error(timeout_ms: Option<u64>, read_mode: Option<String>) -> Option<
    Seq<char>,
> {
    or_else(
        read_timeout_error(timeout_ms.unwrap_or(manager::DEFAULT_TIMEOUT_MS)),
        recv_mode_error(or_text(read_mode, "hex"@)),
    )
}

/// Why `uart_read` is refused, if it is.
pub open spec fn read_error(args: ReadArgs) -> Option<Seq<char>> {
    or_else(port_error(args.port@), reading_error(args.timeout_ms, args.read_mode))
}

/// A read as it was asked for, with the defaults.
pub open spec fn read_plan_is(
    plan: ReadPlan,
    port: Seq<char>,
    idle_ms: Option<u64>,
    max_bytes: Option<usize>,
    timeout_ms: Option<u64>,
    read_mode: Option<String>,
) -> bool {
    &&& plan.port@ == port
    &&& plan.idle_ms == idle_ms.unwrap_or(manager::DEFAULT_IDLE_MS)
    &&& plan.max_bytes == at_least_one(max_bytes.unwrap_or(manager::DEFAULT_MAX_BYTES))
    &&& plan.timeout_ms == timeout_ms.unwrap_or(manager::DEFAULT_TIMEOUT_MS)
    &&& plan.read_mode@ == or_text(read_mode, "hex"@)
}

fn plan_read(
    port: String,
    idle_ms: Option<u64>,
    max_bytes: Option<usize>,
    timeout_ms: Option<u64>,
    read_mode: &Option<String>,
) -> (r: Result<ReadPlan, String>)
    ensures
        match r {
            Ok(plan) => reading_error(timeout_ms, *read_mode) is None && read_plan_is(
                plan,
                port@,
                idle_ms,
                max_bytes,
                timeout_ms,
                *read_mode,
            ),
            Err(e) => reading_error(timeout_ms, *read_mode) == Some(e@),
        },
{
    let timeout: u64 = timeout_ms.unwrap_or(manager::DEFAULT_TIMEOUT_MS);
    match validate_read_timeout(timeout) {
        Ok(_) => {},
        Err(e) => {
            return Err(e);
        },
    }
    let mode = text_or(read_mode, "hex");
    match parse_recv_mode(mode.as_str()) {
        Ok(_) => {},
        Err(e) => {
            return Err(e);
        },
    }
    let enough: usize = max_bytes.unwrap_or(manager::DEFAULT_MAX_BYTES);
    Ok(
        ReadPlan {
            port,
            idle_ms: idle_ms.unwrap_or(manager::DEFAULT_IDLE_MS),
            max_bytes: if enough < 1 {
                1
            } else {
                enough
            },
            timeout_ms: timeout,
            read_mode: mode,
        },
    )
}

/// Plans `uart_read`.
pub fn uart_read(args: ReadArgs) -> (r: Result<ReadPlan, String>)
    ensures
        match r {
            Ok(plan) => read_error(args) is None && read_plan_is(
                plan,
                args.port@,
                args.idle_ms,
                args.max_bytes,
                args.timeout_ms,
                args.read_mode,
            ),
            Err(e) => read_error(args) == Some(e@),
        },
{
    match require_port(args.port.as_str()) {
        Ok(_) => {},
        Err(e) => {
            return Err(e);
        },
    }
    plan_read(args.port, args.idle_ms, args.max_bytes, args.timeout_ms, &args.read_mode)
}

/// What `uart_exchange` is to write, and how it is to read.
#[derive(Debug)]
pub struct ExchangePlan {
    /// The bytes, with the line end.
    pub data: Vec<u8>,
    /// The line end.
    pub newline: String,
    /// The read.
    pub read: ReadPlan,
}

/// Why `uart_exchange` is refused, if it is.
pub open spec fn exchange_error(args: ExchangeArgs) -> Option<Seq<char>> {
    or_else(
        port_error(args.port@),
        or_else(
            outgoing_error(args.data@, args.mode, args.newline),
            reading_error(args.timeout_ms, args.read_mode),
        ),
    )
}

/// Plans `uart_exchange`.
pub fn uart_exchange(args: ExchangeArgs) -> (r: Result<ExchangePlan, String>)
    ensures
        match r {
            Ok(plan) => {
                &&& exchange_error(args) is None
                &&& plan.data@ == outgoing_bytes(args.data@, args.mode, args.newline)
                &&& plan.newline@ == text::lower(or_text(args.newline, "none"@))
                &&& read_plan_is(
                    plan.read,
                    args.port@,
                    args.idle_ms,
                    args.max_bytes,
                    args.timeout_ms,
                    args.read_mode,
                )
            },
            Err(e) => exchange_error(args) == Some(e@),
        },
{
    match require_port(args.port.as_str()) {
        Ok(_) => {},
        Err(e) => {
            return Err(e);
        },
    }
    let (data, _, newline) = match outgoing(args.data.as_str(), &args.mode, &args.newline) {
        Err(e) => {
            return Err(e);
        },
        Ok(o) => o,
    };
    match plan_read(args.port, args.idle_ms, args.max_bytes, args.timeout_ms, &args.read_mode) {
        Err(e) => Err(e),
        Ok(read) => Ok(ExchangePlan { data, newline, read }),
    }
}

/// What `uart_expect` and `uart_expect_send` are to do.
#[derive(Debug)]
pub struct ExpectPlan {
    /// The port's name.
    pub port: String,
    /// What is expected, as it was given.
    pub pattern_text: String,
    /// What is expected.
    pub pattern: Vec<u8>,
    /// What is written first, if anything.
    pub data: Option<Vec<u8>>,
    /// What is written as soon as the pattern is found, if anything.
    pub reply: Option<Vec<u8>>,
    /// The line end of what is written.
    pub newline: String,
    /// How long to wait at most, in milliseconds.
    pub timeout_ms: u64,
    /// Whether the bytes up to the end of the pattern are taken.
    pub consume: bool,
    /// Which bytes count.
    pub match_scope: MatchScope,
    /// Whether control sequences are skipped.
    pub ignore_ansi: bool,
    /// How the answer is encoded.
    pub read_mode: String,
}

/// The bytes of a pattern or a reply.
pub open spec fn given_bytes(data: Seq<char>, mode: Option<String>) -> Result<
    Seq<u8>,
    Seq<char>,
> {
    sent_bytes(data, or_text(mode, "hex"@))
}

/// Why the encoding of a pattern or a reply is refused, if it is.
pub open spec fn given_error(data: Seq<char>, mode: Option<String>) -> Option<Seq<char>> {
    or_else(send_mode_error(or_text(mode, "hex"@)), error_in(given_bytes(data, mode)))
}

fn given(data: &str, mode: &Option<String>) -> (r: Result<Vec<u8>, String>)
    ensures
        match r {
            Ok(b) => given_error(data@, *mode) is None && given_bytes(data@, *mode) == Ok::<
                Seq<u8>,
                Seq<char>,
            >(b@),
            Err(e) => given_error(data@, *mode) == Some(e@),
        },
{
    let mode = text_or(mode, "hex");
    match parse_send_mode(mode.as_str()) {
        Ok(_) => {},
        Err(e) => {
            return Err(e);
        },
    }
    encode_send(data, mode.as_str())
}

/// Why the waiting of an expectation is refused, if it is.
pub open spec fn waiting_error(
    timeout_ms: Option<u64>,
    match_scope: Option<String>,
    read_mode: Option<String>,
) -> Option<Seq<char>> {
    or_else(
        expect_timeout_error(timeout_ms.unwrap_or(manager::DEFAULT_TIMEOUT_MS)),
        or_else(
            scope_error(or_text(match_scope, "buffer"@)),
            recv_mode_error(or_text(read_mode, "hex"@)),
        ),
    )
}

/// Checks how an expectation is to wait. Returns the time, the scope and the encoding of the
/// answer.
fn waiting(
    timeout_ms: Option<u64>,
    match_scope: &Option<String>,
    read_mode: &Option<String>,
) -> (r: Result<(u64, MatchScope, String), String>)
    ensures
        match r {
            Ok(w) => {
                &&& waiting_error(timeout_ms, *match_scope, *read_mode) is None
                &&& w.0 == timeout_ms.unwrap_or(manager::DEFAULT_TIMEOUT_MS)
                &&& scope_of(or_text(*match_scope, "buffer"@)) == Ok::<MatchScope, Seq<char>>(w.1)
                &&& w.2@ == or_text(*read_mode, "hex"@)
            },
            Err(e) => waiting_error(timeout_ms, *match_scope, *read_mode) == Some(e@),
        },
{
    let timeout: u64 = timeout_ms.unwrap_or(manager::DEFAULT_TIMEOUT_MS);
    match validate_expect_timeout(timeout) {
        Ok(_) => {},
        Err(e) => {
            return Err(e);
        },
    }
    let scope = match parse_match_scope(text_or(match_scope, "buffer").as_str()) {
        Ok(scope) => scope,
        Err(e) => {
            return Err(e);
        },
    };
    let mode = text_or(read_mode, "hex");
    match parse_recv_mode(mode.as_str()) {
        Ok(_) => {},
        Err(e) => {
            return Err(e);
        },
    }
    Ok((timeout, scope, mode))
}

/// What all expectations have in common.
pub open spec fn expect_plan_is(
    plan: ExpectPlan,
    port: Seq<char>,
    pattern: Seq<char>,
    pattern_mode: Option<String>,
    newline: Option<String>,
    timeout_ms: Option<u64>,
    consume: Option<bool>,
    match_scope: Option<String>,
    ignore_ansi: Option<bool>,
    read_mode: Option<String>,
) -> bool {
    &&& plan.port@ == port
    &&& plan.pattern_text@ == pattern
    &&& given_bytes(pattern, pattern_mode) == Ok::<Seq<u8>, Seq<char>>(plan.pattern@)
    &&& plan.newline@ == text::lower(or_text(newline, "none"@))
    &&& plan.timeout_ms == timeout_ms.unwrap_or(manager::DEFAULT_TIMEOUT_MS)
    &&& plan.consume == consume.unwrap_or(true)
    &&& scope_of(or_text(match_scope, "buffer"@)) == Ok::<MatchScope, Seq<char>>(plan.match_scope)
    &&& plan.ignore_ansi == ignore_ansi.unwrap_or(false)
    &&& plan.read_mode@ == or_text(read_mode, "hex"@)
}

/// Why `uart_expect` is refused, if it is.
pub open spec fn expect_error(args: ExpectArgs) -> Option<Seq<char>> {
    let n = given_bytes(args.pattern@, args.pattern_mode)->Ok_0.len() as int;
    or_else(
        port_error(args.port@),
        or_else(
            given_error(args.pattern@, args.pattern_mode),
            or_else(
                pattern_size_error(n),
                or_else(
                    empty_error(n, "pattern 不能为空"@),
                    or_else(
                        waiting_error(args.timeout_ms, args.match_scope, args.read_mode),
                        or_else(
                            newline_error(text::lower(or_text(args.newline, "none"@))),
                            match args.data {
                                Some(d) => given_error(d@, args.mode),
                                None => None,
                            },
                        ),
                    ),
                ),
            ),
        ),
    )
}

/// Plans `uart_expect`.
pub fn uart_expect(args: ExpectArgs) -> (r: Result<ExpectPlan, String>)
    ensures
        match r {
            Ok(plan) => {
                &&& expect_error(args) is None
                &&& expect_plan_is(
                    plan,
                    args.port@,
                    args.pattern@,
                    args.pattern_mode,
                    args.newline,
                    args.timeout_ms,
                    args.consume,
                    args.match_scope,
                    args.ignore_ansi,
                    args.read_mode,
                )
                &&& plan.reply is None
                &&& match args.data {
                    Some(d) => plan.data matches Some(b) && b@ == given_bytes(d@, args.mode)->Ok_0
                        + newline_bytes(text::lower(or_text(args.newline, "none"@))),
                    None => plan.data is None,
                }
            },
            Err(e) => expect_error(args) == Some(e@),
        },
{
    match require_port(args.port.as_str()) {
        Ok(_) => {},
        Err(e) => {
            return Err(e);
        },
    }
    let pattern = match given(args.pattern.as_str(), &args.pattern_mode) {
        Ok(p) => p,
        Err(e) => {
            return Err(e);
        },
    };
    match validate_pattern_size(&pattern) {
        Ok(_) => {},
        Err(e) => {
            return Err(e);
        },
    }
    match validate_not_empty(&pattern, "pattern 不能为空") {
        Ok(_) => {},
        Err(e) => {
            return Err(e);
        },
    }
    let (timeout_ms, match_scope, read_mode) = match waiting(
        args.timeout_ms,
        &args.match_scope,
        &args.read_mode,
    ) {
        Ok(w) => w,
        Err(e) => {
            return Err(e);
        },
    };
    let newline = text::ascii_lower(text_or(&args.newline, "none").as_str());
    match parse_newline(newline.as_str()) {
        Ok(_) => {},
        Err(e) => {
            return Err(e);
        },
    }
    let data = match &args.data {
        Some(d) => match given(d.as_str(), &args.mode) {
            Ok(bytes) => Some(apply_newline(bytes, newline.as_str())),
            Err(e) => {
                return Err(e);
            },
        },
        None => None,
    };
    Ok(
        ExpectPlan {
            port: args.port,
            pattern_text: args.pattern,
            pattern,
            data,
            reply: None,
            newline,
            timeout_ms,
            consume: args.consume.unwrap_or(true),
            match_scope,
            ignore_ansi: args.ignore_ansi.unwrap_or(false),
            read_mode,
        },
    )
}

/// Why `uart_expect_send` is refused, if it is. A line end does not make up for an empty reply.
pub open spec fn expect_send_error(args: ExpectSendArgs) -> Option<Seq<char>> {
    let n = given_bytes(args.pattern@, args.pattern_mode)->Ok_0.len() as int;
    or_else(
        port_error(args.port@),
        or_else(
            given_error(args.pattern@, args.pattern_mode),
            or_else(
                empty_error(n, "pattern 不能为空"@),
                or_else(
                    pattern_size_error(n),
                    or_else(
                        given_error(args.reply@, args.reply_mode),
                        or_else(
                            empty_error(
                                given_bytes(args.reply@, args.reply_mode)->Ok_0.len() as int,
                                "reply 不能为空"@,
                            ),
                            or_else(
                                newline_error(text::lower(or_text(args.newline, "none"@))),
                                waiting_error(args.timeout_ms, args.match_scope, args.read_mode),
                            ),
                        ),
                    ),
                ),
            ),
        ),
    )
}

/// Plans `uart_expect_send`.
pub fn uart_expect_send(args: ExpectSendArgs) -> (r: Result<ExpectPlan, String>)
    ensures
        match r {
            Ok(plan) => {
                &&& expect_send_error(args) is None
                &&& expect_plan_is(
                    plan,
                    args.port@,
                    args.pattern@,
                    args.pattern_mode,
                    args.newline,
                    args.timeout_ms,
                    args.consume,
                    args.match_scope,
                    args.ignore_ansi,
                    args.read_mode,
                )
                &&& plan.data is None
                &&& plan.reply matches Some(b) && b@ == given_bytes(
                    args.reply@,
                    args.reply_mode,
                )->Ok_0 + newline_bytes(text::lower(or_text(args.newline, "none"@)))
            },
            Err(e) => expect_send_error(args) == Some(e@),
        },
{
    match require_port(args.port.as_str()) {
        Ok(_) => {},
        Err(e) => {
            return Err(e);
        },
    }
    let pattern = match given(args.pattern.as_str(), &args.pattern_mode) {
        Ok(p) => p,
        Err(e) => {
            return Err(e);
        },
    };
    match validate_not_empty(&pattern, "pattern 不能为空") {
        Ok(_) => {},
        Err(e) => {
            return Err(e);
        },
    }
    match validate_pattern_size(&pattern) {
        Ok(_) => {},
        Err(e) => {
            return Err(e);
        },
    }
    let reply = match given(args.reply.as_str(), &args.reply_mode) {
        Ok(b) => b,
        Err(e) => {
            return Err(e);
        },
    };
    match validate_not_empty(&reply, "reply 不能为空") {
        Ok(_) => {},
        Err(e) => {
            return Err(e);
        },
    }
    let newline = text::ascii_lower(text_or(&args.newline, "none").as_str());
    match parse_newline(newline.as_str()) {
        Ok(_) => {},
        Err(e) => {
            return Err(e);
        },
    }
    let (timeout_ms, match_scope, read_mode) = match waiting(
        args.timeout_ms,
        &args.match_scope,
        &args.read_mode,
    ) {
        Ok(w) => w,
        Err(e) => {
            return Err(e);
        },
    };
    let reply = apply_newline(reply, newline.as_str());
    Ok(
        ExpectPlan {
            port: args.port,
            pattern_text: args.pattern,
            pattern,
            data: None,
            reply: Some(reply),
            newline,
            timeout_ms,
            consume: args.consume.unwrap_or(true),
            match_scope,
            ignore_ansi: args.ignore_ansi.unwrap_or(false),
            read_mode,
        },
    )
}

/// How a file is to be sent, or estimated.
#[derive(Debug)]
pub struct SendPlan {
    /// The mode.
    pub mode: SendMode,
    /// How many bytes of the file make a chunk.
    pub chunk_size: usize,
    /// The pause after each chunk, in milliseconds.
    pub gap_ms: u64,
}

/// A mode must have a name that is known.
pub open spec fn file_mode_error(mode: Option<String>) -> Option<Seq<char>> {
    let m = text::lower(or_text(mode, "text"@));
    if m == sendfile::mode_name(SendMode::Text) || m == sendfile::mode_name(SendMode::Base64) {
        None
    } else {
        Some("mode 必须是 text 或 base64，收到 "@ + text::str_debug(m))
    }
}

/// Why the sending of a file is refused, if it is.
pub open spec fn sending_error(
    mode: Option<String>,
    chunk_size: Option<usize>,
    gap_ms: Option<u64>,
) -> Option<Seq<char>> {
    or_else(
        file_mode_error(mode),
        or_else(chunk_size_error(chunk_size), gap_error(gap_ms.unwrap_or(0))),
    )
}

/// The sending of a file as it was asked for, with the defaults.
pub open spec fn send_plan_is(
    plan: SendPlan,
    mode: Option<String>,
    chunk_size: Option<usize>,
    gap_ms: Option<u64>,
) -> bool {
    &&& sendfile::mode_name(plan.mode) == text::lower(or_text(mode, "text"@))
    &&& plan.chunk_size == chunk_size.unwrap_or(sendfile::DEFAULT_CHUNK_SIZE)
    &&& plan.gap_ms == gap_ms.unwrap_or(0)
    &&& 1 <= plan.chunk_size <= sendfile::MAX_CHUNK_SIZE
    &&& plan.gap_ms <= manager::MAX_SEND_GAP_MS
}

fn plan_sending(mode: &Option<String>, chunk_size: Option<usize>, gap_ms: Option<u64>) -> (r: Result<
    SendPlan,
    String,
>)
    ensures
        match r {
            Ok(plan) => sending_error(*mode, chunk_size, gap_ms) is None && send_plan_is(
                plan,
                *mode,
                chunk_size,
                gap_ms,
            ),
            Err(e) => sending_error(*mode, chunk_size, gap_ms) == Some(e@),
        },
{
    let mode = match SendMode::parse(text_or(mode, "text").as_str()) {
        Ok(m) => m,
        Err(e) => {
            return Err(e);
        },
    };
    match validate_chunk_size(chunk_size) {
        Ok(_) => {},
        Err(e) => {
            return Err(e);
        },
    }
    let gap: u64 = gap_ms.unwrap_or(0);
    match validate_gap(gap) {
        Ok(_) => {},
        Err(e) => {
            return Err(e);
        },
    }
    Ok(
        SendPlan {
            mode,
            chunk_size: chunk_size.unwrap_or(sendfile::DEFAULT_CHUNK_SIZE),
            gap_ms: gap,
        },
    )
}

/// Why `uart_send_estimate` is refused, if it is, before the file is looked at.
pub open spec fn estimate_error(args: SendEstimateArgs) -> Option<Seq<char>> {
    or_else(
        sending_error(args.mode, args.chunk_size, args.gap_ms),
        empty_error(
            args.baudrate.unwrap_or(manager::DEFAULT_BAUDRATE) as int,
            "baudrate 必须 ≥ 1"@,
        ),
    )
}

/// Plans `uart_send_estimate`. Returns how the file would be sent, and the baud rate.
pub fn uart_send_estimate(args: &SendEstimateArgs) -> (r: Result<(SendPlan, u32), String>)
    ensures
        match r {
            Ok(plan) => {
                &&& estimate_error(*args) is None
                &&& send_plan_is(plan.0, args.mode, args.chunk_size, args.gap_ms)
                &&& plan.1 == args.baudrate.unwrap_or(manager::DEFAULT_BAUDRATE)
                &&& plan.1 >= 1
            },
            Err(e) => estimate_error(*args) == Some(e@),
        },
{
    let plan = match plan_sending(&args.mode, args.chunk_size, args.gap_ms) {
        Ok(p) => p,
        Err(e) => {
            return Err(e);
        },
    };
    let baudrate: u32 = args.baudrate.unwrap_or(manager::DEFAULT_BAUDRATE);
    if baudrate == 0 {
        return Err("baudrate 必须 ≥ 1".to_owned());
    }
    Ok((plan, baudrate))
}

/// Why `uart_send_file` is refused, if it is, before the file is looked at.
pub open spec fn send_file_error(args: SendFileArgs) -> Option<Seq<char>> {
    or_else(
        port_error(args.port@),
        or_else(
            sending_error(args.mode, args.chunk_size, args.gap_ms),
            duration_error(args.max_duration_ms),
        ),
    )
}

/// Plans `uart_send_file`.
pub fn uart_send_file(args: &SendFileArgs) -> (r: Result<SendPlan, String>)
    ensures
        match r {
            Ok(plan) => send_file_error(*args) is None && send_plan_is(
                plan,
                args.mode,
                args.chunk_size,
                args.gap_ms,
            ),
            Err(e) => send_file_error(*args) == Some(e@),
        },
{
    match require_port(args.port.as_str()) {
        Ok(_) => {},
        Err(e) => {
            return Err(e);
        },
    }
    let plan = match plan_sending(&args.mode, args.chunk_size, args.gap_ms) {
        Ok(p) => p,
        Err(e) => {
            return Err(e);
        },
    };
    match validate_duration(args.max_duration_ms) {
        Ok(_) => {},
        Err(e) => {
            return Err(e);
        },
    }
    Ok(plan)
}

/// Checks `uart_send_cancel`.
pub fn uart_send_cancel(args: &SendCancelArgs) -> (r: Result<(), String>)
    ensures
        check_is(r, port_error(args.port@)),
{
    require_port(args.port.as_str())
}

/// Checks `uart_available`.
pub fn uart_available(args: &AvailableArgs) -> (r: Result<(), String>)
    ensures
        check_is(r, port_error(args.port@)),
{
    require_port(args.port.as_str())
}

/// Checks `uart_clear`.
pub fn uart_clear(args: &ClearArgs) -> (r: Result<(), String>)
    ensures
        check_is(r, port_error(args.port@)),
{
    require_port(args.port.as_str())
}

/// Checks `uart_close`.
pub fn uart_close(args: &CloseArgs) -> (r: Result<(), String>)
    ensures
        check_is(r, port_error(args.port@)),
{
    require_port(args.port.as_str())
}

/// The answer of `uart_write`.
#[derive(Debug)]
pub struct WriteReply {
    /// How many bytes were written.
    pub written: usize,
    /// How they were encoded.
    pub mode: String,
    /// The line end.
    pub newline: String,
}

/// Answers `uart_write`.
pub fn write_result(written: usize, mode: String, newline: String) -> (r: WriteReply)
    ensures
        r.written == written,
        r.mode@ == mode@,
        r.newline@ == newline@,
{
    WriteReply { written, mode, newline }
}

/// The answer of `uart_read`.
#[derive(Debug)]
pub struct ReadReply {
    /// The bytes, encoded.
    pub data: String,
    /// How many bytes they are.
    pub bytes: usize,
    /// The encoding that was used.
    pub mode: String,
    /// Why the read ended.
    pub reason: String,
    /// How many bytes were lost since the last time that this was reported.
    pub overflow_delta: u64,
    /// How many bytes were lost since the port was opened.
    pub overflow_total: u64,
    /// How many bytes are unread now.
    pub buffered_bytes: usize,
    /// Whether bytes are unread now.
    pub pending: bool,
    /// Whether bytes came in after the read began.
    pub new_data_observed: bool,
}

/// What an answer says of a read.
pub open spec fn read_reply_is(reply: ReadReply, outcome: ReadOutcome, read_mode: Seq<char>) -> bool {
    &&& (reply.data@, reply.mode@) == received(outcome.data@, read_mode)
    &&& reply.bytes == outcome.data@.len()
    &&& reply.reason@ == read_reason_name(outcome.reason)
    &&& reply.overflow_delta == outcome.overflow_delta
    &&& reply.overflow_total == outcome.overflow_total
    &&& reply.buffered_bytes == outcome.buffered
    &&& reply.pending == (outcome.buffered > 0)
    &&& reply.new_data_observed == outcome.new_data_observed
}

/// Answers `uart_read`.
pub fn read_result(outcome: ReadOutcome, read_mode: &str) -> (r: ReadReply)
    ensures
        read_reply_is(r, outcome, read_mode@),
{
    let (data, mode) = encode_recv(outcome.data.as_slice(), read_mode);
    ReadReply {
        data,
        bytes: outcome.data.len(),
        mode,
        reason: read_reason_str(outcome.reason).to_owned(),
        overflow_delta: outcome.overflow_delta,
        overflow_total: outcome.overflow_total,
        buffered_bytes: outcome.buffered,
        pending: outcome.buffered > 0,
        new_data_observed: outcome.new_data_observed,
    }
}

/// The answer of `uart_exchange`.
#[derive(Debug)]
pub struct ExchangeReply {
    /// How many bytes were written.
    pub written: usize,
    /// The line end.
    pub newline: String,
    /// What was read.
    pub read: ReadReply,
}

/// Answers `uart_exchange`.
pub fn exchange_result(
    written: usize,
    outcome: ReadOutcome,
    read_mode: &str,
    newline: String,
) -> (r: ExchangeReply)
    ensures
        r.written == written,
        r.newline@ == newline@,
        read_reply_is(r.read, outcome, read_mode@),
{
    ExchangeReply { written, newline, read: read_result(outcome, read_mode) }
}

/// The answer of `uart_expect` and `uart_expect_send`.
#[derive(Debug)]
pub struct ExpectReply {
    /// Whether the pattern was found.
    pub matched: bool,
    /// The pattern, as it was given.
    pub pattern: String,
    /// The bytes that were taken, encoded.
    pub data: String,
    /// How many bytes they are.
    pub bytes: usize,
    /// The encoding that was used.
    pub mode: String,
    /// The line end of what was written.
    pub newline: String,
    /// Which bytes counted.
    pub match_scope: String,
    /// Whether control sequences were skipped.
    pub ignore_ansi: bool,
    /// How many bytes were written.
    pub written: usize,
    /// Why the expectation ended.
    pub reason: String,
    /// How many bytes were lost since the last time that this was reported; always 0 if no bytes
    /// were to be taken.
    pub overflow_delta: u64,
    /// How many bytes were lost since the port was opened.
    pub overflow_total: u64,
    /// How many bytes are unread now.
    pub buffered_bytes: usize,
    /// Whether bytes are unread now.
    pub pending: bool,
}

/// The word for why an expectation ended.
pub open spec fn expect_reason_name(r: ExpectReason) -> Seq<char> {
    match r {
        ExpectReason::Matched => "matched"@,
        ExpectReason::Timeout => "timeout"@,
    }
}

/// Answers `uart_expect` and `uart_expect_send`.
pub fn expect_result(
    outcome: ExpectOutcome,
    pattern: String,
    read_mode: &str,
    newline: String,
    match_scope: MatchScope,
    ignore_ansi: bool,
) -> (r: ExpectReply)
    ensures
        r.matched == outcome.matched,
        r.pattern@ == pattern@,
        (r.data@, r.mode@) == received(outcome.data@, read_mode@),
        r.bytes == outcome.data@.len(),
        r.newline@ == newline@,
        r.match_scope@ == scope_name(match_scope),
        r.ignore_ansi == ignore_ansi,
        r.written == outcome.written,
        r.reason@ == expect_reason_name(outcome.reason),
        r.overflow_delta == outcome.overflow_delta,
        r.overflow_total == outcome.overflow_total,
        r.buffered_bytes == outcome.buffered,
        r.pending == (outcome.buffered > 0),
{
    let (data, mode) = encode_recv(outcome.data.as_slice(), read_mode);
    ExpectReply {
        matched: outcome.matched,
        pattern,
        data,
        bytes: outcome.data.len(),
        mode,
        newline,
        match_scope: match match_scope {
            MatchScope::Buffer => "buffer".to_owned(),
            MatchScope::New => "new".to_owned(),
        },
        ignore_ansi,
        written: outcome.written,
        reason: match outcome.reason {
            ExpectReason::Matched => "matched".to_owned(),
            ExpectReason::Timeout => "timeout".to_owned(),
        },
        overflow_delta: outcome.overflow_delta,
        overflow_total: outcome.overflow_total,
        buffered_bytes: outcome.buffered,
        pending: outcome.buffered > 0,
    }
}

/// The answer of `uart_send_file`.
#[derive(Debug)]
pub struct SendFileReply {
    /// What came of the transfer.
    pub outcome: SendFileOutcome,
    /// The mode.
    pub mode: String,
    /// How many bytes of the file made a chunk.
    pub chunk_size: usize,
    /// The pause after each chunk, in milliseconds.
    pub gap_ms: u64,
    /// How long the transfer was allowed to take, in milliseconds.
    pub max_duration_ms: Option<u64>,
}

/// Answers `uart_send_file`.
pub fn send_file_result(
    outcome: SendFileOutcome,
    plan: SendPlan,
    max_duration_ms: Option<u64>,
) -> (r: SendFileReply)
    ensures
        r.outcome == outcome,
        r.mode@ == sendfile::mode_name(plan.mode),
        r.chunk_size == plan.chunk_size,
        r.gap_ms == plan.gap_ms,
        r.max_duration_ms == max_duration_ms,
{
    SendFileReply {
        outcome,
        mode: plan.mode.as_str().to_owned(),
        chunk_size: plan.chunk_size,
        gap_ms: plan.gap_ms,
        max_duration_ms,
    }
}

/// The answer of `uart_send_cancel`.
#[derive(Debug)]
pub struct SendCancelReply {
    /// Whether there was a transfer to stop.
    pub cancelled: bool,
    /// How far it had come.
    pub send: SendProgress,
}

/// Answers `uart_send_cancel`.
pub fn send_cancel_result(send: SendProgress) -> (r: SendCancelReply)
    ensures
        r.cancelled == send.active,
        r.send == send,
{
    SendCancelReply { cancelled: send.active, send }
}

/// Bytes that were answered can be written back: in hexadecimal always, and as text where the
/// answer was text.
pub proof fn law_answers_can_be_sent(bytes: Seq<u8>, mode: Seq<char>)
    requires
        mode == "hex"@ || mode == "text"@,
    ensures
        mode == "hex"@ ==> received(bytes, mode).1 == "hex"@,
        received(bytes, mode).1 == "hex"@ || received(bytes, mode).1 == "text"@ ==> sent_bytes(
            received(bytes, mode).0,
            received(bytes, mode).1,
        ) == Ok::<Seq<u8>, Seq<char>>(bytes),
        received(bytes, mode).1 == "hex (text 降级)"@ ==> sent_bytes(
            received(bytes, mode).0,
            "hex"@,
        ) == Ok::<Seq<u8>, Seq<char>>(bytes),
{
    reveal_strlit("hex");
    reveal_strlit("text");
    reveal_strlit("text-escaped");
    reveal_strlit("hex (text 降级)");
    assert(text::lower("hex"@) =~= "hex"@);
    assert(text::lower("text"@) =~= "text"@);
    assert("text"@.len() != "hex"@.len());
    assert("text"@.len() != "text-escaped"@.len());
    assert("hex (text 降级)"@.len() != "hex"@.len());
    assert("hex (text 降级)"@.len() != "text"@.len());
    hex::law_hex_round_trip(bytes);
    if hex::is_text_bytes(bytes) {
        decode_utf8_encode_utf8(bytes);
    }
}

/// A pattern that is accepted can be looked for: it is not empty, and not too long for a search.
pub proof fn law_accepted_patterns_are_searched(e: ExpectArgs, s: ExpectSendArgs)
    ensures
        expect_error(e) is None ==> 1 <= given_bytes(e.pattern@, e.pattern_mode)->Ok_0.len()
            <= manager::MAX_PATTERN_SIZE,
        expect_send_error(s) is None ==> 1 <= given_bytes(s.pattern@, s.pattern_mode)->Ok_0.len()
            <= manager::MAX_PATTERN_SIZE,
{
}

/// A port that is opened as planned has a buffer of the size that was asked for.
pub proof fn law_buffer_has_the_planned_size(args: OpenArgs, now: u128)
    requires
        open_error(args) is None,
    ensures
        manager::opened(open_config(args), now).buffer.capacity == args.buffer_size.unwrap_or(
            manager::DEFAULT_BUFFER_SIZE,
        ),
{
}

/// A port must have a name that is not blank.
pub proof fn law_port_needs_a_name(port: Seq<char>)
    ensures
        text::is_blank(port) ==> port_error(port) == Some("port 不能为空"@),
        !text::is_blank(port) ==> port_error(port) is None,
{
}

/// The limits of sizes: a buffer holds 1 to 16777216 bytes, a chunk 1 to 1048576, a pattern up to
/// 65536. What is out of them is refused with the limit.
pub proof fn law_size_limits(n: usize, m: Option<usize>, len: int)
    ensures
        1 <= n <= 16_777_216 ==> buffer_size_error(n) is None,
        n == 0 || n > 16_777_216 ==> buffer_size_error(n) == Some(
            "buffer_size must be in 1..="@ + text::decimal(16_777_216) + " bytes"@,
        ),
        m is None ==> chunk_size_error(m) is None,
        1 <= n <= 1_048_576 ==> chunk_size_error(Some(n)) is None,
        n == 0 ==> chunk_size_error(Some(n)) == Some("chunk_size 必须 ≥ 1"@),
        n > 1_048_576 ==> chunk_size_error(Some(n)) == Some(
            "chunk_size must be in 1..="@ + text::decimal(1_048_576) + " bytes"@,
        ),
        len <= 65_536 ==> pattern_size_error(len) is None,
        len > 65_536 ==> pattern_size_error(len) == Some(
            "pattern exceeds the limit of "@ + text::decimal(65_536) + " bytes"@,
        ),
        len != 0 ==> empty_error(len, "pattern 不能为空"@) is None,
        len == 0 ==> empty_error(len, "pattern 不能为空"@) == Some("pattern 不能为空"@),
{
}

/// The limits of times: a pause lasts up to 60000 milliseconds, a read and an expectation wait up to
/// 300000, a transfer may be given any time but none.
pub proof fn law_time_limits(ms: u64)
    ensures
        ms <= 60_000 ==> gap_error(ms) is None,
        ms > 60_000 ==> gap_error(ms) == Some(
            "gap_ms 超出上限 "@ + text::decimal(60_000)
                + "ms（发送期间其它需要 I/O 锁的工具调用会排队）"@,
        ),
        ms <= 300_000 ==> read_timeout_error(ms) is None && expect_timeout_error(ms) is None,
        ms > 300_000 ==> read_timeout_error(ms) == Some(
            "timeout_ms exceeds the limit of "@ + text::decimal(300_000) + "ms"@,
        ),
        ms > 300_000 ==> expect_timeout_error(ms) == Some(
            "timeout_ms 超出上限 "@ + text::decimal(300_000)
                + "ms（expect 期间其它需要 I/O 锁的工具调用会排队）"@,
        ),
        duration_error(None) is None,
        ms > 0 ==> duration_error(Some(ms)) is None,
        ms == 0 ==> duration_error(Some(ms)) == Some("max_duration_ms 必须 ≥ 1"@),
{
}

/// The file must have a path, be there, be a regular file, and be readable, and the first of these
/// that fails is told.
pub proof fn law_file_is_checked(
    path: Seq<char>,
    meta: Result<FileMeta, String>,
    readable: Result<(), String>,
)
    ensures
        text::is_blank(path) ==> file_error(path, meta, readable) == Some("path 不能为空"@),
        !text::is_blank(path) ==> match meta {
            Err(e) => file_error(path, meta, readable) == Some("无法访问文件 "@ + path + ": "@ + e@),
            Ok(m) => {
                &&& !m.is_file ==> file_error(path, meta, readable) == Some(path + " 不是普通文件"@)
                &&& m.is_file ==> match readable {
                    Err(e) => file_error(path, meta, readable) == Some(
                        "打开文件 "@ + path + " 失败: "@ + e@,
                    ),
                    Ok(_) => file_error(path, meta, readable) is None,
                }
            },
        },
{
}

/// The encodings: what is written comes as hex or text, what is read goes as hex, text or
/// text-escaped, in upper or lower case; anything else is refused and told. That text-escaped is
/// for answers only is told, too.
pub proof fn law_encodings(mode: Seq<char>)
    ensures
        ({
            let m = text::lower(mode);
            &&& send_mode_error(mode) is None == (m == "hex"@ || m == "text"@)
            &&& m == "text-escaped"@ ==> send_mode_error(mode) == Some(
                "text-escaped 仅用于返回编码（read_mode），发送编码仅支持 hex 或 text"@,
            )
            &&& m != "hex"@ && m != "text"@ && m != "text-escaped"@ ==> send_mode_error(mode) == Some(
                "mode 仅支持 hex 或 text，收到 "@ + text::str_debug(m),
            )
            &&& recv_mode_error(mode) is None == (m == "hex"@ || m == "text"@ || m
                == "text-escaped"@)
            &&& recv_mode_error(mode) matches Some(e) ==> e
                == "read_mode 仅支持 hex、text 或 text-escaped，收到 "@ + text::str_debug(m)
        }),
{
    reveal_strlit("hex");
    reveal_strlit("text");
    reveal_strlit("text-escaped");
    assert("text-escaped"@.len() != "hex"@.len());
    assert("text-escaped"@.len() != "text"@.len());
}

/// The line ends: none, lf and crlf, in upper or lower case; lf is one byte, crlf two.
pub proof fn law_line_ends(newline: Seq<char>)
    ensures
        newline_error(newline) is None == (text::lower(newline) == "none"@ || text::lower(newline)
            == "lf"@ || text::lower(newline) == "crlf"@),
        newline_error(newline) matches Some(e) ==> e == "newline 仅支持 none、lf 或 crlf，收到 "@
            + text::str_debug(text::lower(newline)),
        newline == "lf"@ ==> newline_bytes(newline) == seq![0x0Au8],
        newline == "crlf"@ ==> newline_bytes(newline) == seq![0x0Du8, 0x0Au8],
        newline != "lf"@ && newline != "crlf"@ ==> newline_bytes(newline).len() == 0,
{
    reveal_strlit("lf");
    reveal_strlit("crlf");
    assert("lf"@.len() != "crlf"@.len());
}

/// The scopes: buffer and new, in upper or lower case; their names are told as they are given.
pub proof fn law_scopes(s: Seq<char>)
    ensures
        text::lower(s) == "buffer"@ ==> scope_of(s) == Ok::<MatchScope, Seq<char>>(
            MatchScope::Buffer,
        ),
        text::lower(s) == "new"@ ==> scope_of(s) == Ok::<MatchScope, Seq<char>>(MatchScope::New),
        text::lower(s) != "buffer"@ && text::lower(s) != "new"@ ==> scope_of(s) == Err::<
            MatchScope,
            Seq<char>,
        >("match_scope 仅支持 buffer 或 new，收到 "@ + text::str_debug(text::lower(s))),
        scope_error(s) is None == (text::lower(s) == "buffer"@ || text::lower(s) == "new"@),
        scope_error(s) matches Some(e) ==> scope_of(s) == Err::<MatchScope, Seq<char>>(e),
        scope_name(MatchScope::Buffer) == "buffer"@,
        scope_name(MatchScope::New) == "new"@,
{
    reveal_strlit("buffer");
    reveal_strlit("new");
    assert("buffer"@.len() != "new"@.len());
}

/// What data stand for: in hex what decoding them gives, in text their UTF-8 form.
pub proof fn law_data_stand_for_bytes(data: Seq<char>, mode: Seq<char>)
    ensures
        text::lower(mode) == "hex"@ ==> sent_bytes(data, mode) == hex::decoded(data),
        text::lower(mode) == "text"@ ==> sent_bytes(data, mode) == Ok::<Seq<u8>, Seq<char>>(
            encode_utf8(data),
        ),
        text::lower(mode) != "hex"@ && text::lower(mode) != "text"@ ==> sent_bytes(data, mode)
            is Err,
{
    reveal_strlit("hex");
    reveal_strlit("text");
    assert("hex"@.len() != "text"@.len());
}

/// How bytes are answered: in hex and with escapes whatever they are; as text if they are readable
/// text, and else in hex, which is told.
pub proof fn law_answers_are_encoded(bytes: Seq<u8>, mode: Seq<char>)
    ensures
        text::lower(mode) == "hex"@ ==> received(bytes, mode) == (hex::hex_text(bytes), "hex"@),
        text::lower(mode) == "text-escaped"@ ==> received(bytes, mode) == (
            hex::escaped(bytes),
            "text-escaped"@,
        ),
        text::lower(mode) == "text"@ && hex::is_text_bytes(bytes) ==> received(bytes, mode) == (
            decode_utf8(bytes),
            "text"@,
        ),
        text::lower(mode) == "text"@ && !hex::is_text_bytes(bytes) ==> received(bytes, mode) == (
            hex::hex_text(bytes),
            "hex (text 降级)"@,
        ),
{
    reveal_strlit("hex");
    reveal_strlit("text");
    reveal_strlit("text-escaped");
    assert("hex"@.len() != "text"@.len());
    assert("hex"@.len() != "text-escaped"@.len());
    assert("text"@.len() != "text-escaped"@.len());
}

/// Why an operation ended is told in a word.
pub proof fn law_reasons()
    ensures
        read_reason_name(ReadReason::Idle) == "idle"@,
        read_reason_name(ReadReason::MaxBytes) == "max_bytes"@,
        read_reason_name(ReadReason::Timeout) == "timeout"@,
        expect_reason_name(ExpectReason::Matched) == "matched"@,
        expect_reason_name(ExpectReason::Timeout) == "timeout"@,
{
}

/// Settings are refused if one that is given is out of its range or not known, and the first such
/// one is told; a setting that is not given is never wrong.
pub proof fn law_settings_are_checked(
    baudrate: Option<u32>,
    data_bits: Option<u8>,
    parity: Option<String>,
    stop_bits: Option<u8>,
    flow_control: Option<String>,
)
    ensures
        ({
            let error = settings_error(baudrate, data_bits, parity, stop_bits, flow_control);
            let bad_rate = baudrate matches Some(b) && !(50 <= b <= 4_000_000);
            let bad_data = data_bits matches Some(d) && !(5 <= d <= 8);
            let bad_parity = parity matches Some(s) && manager::parity_of(s@) is None;
            let bad_stop = stop_bits matches Some(d) && !(1 <= d <= 2);
            let bad_flow = flow_control matches Some(s) && manager::flow_control_of(s@) is None;
            if bad_rate {
                error == Some(
                    "baudrate 超出合理范围 (50-4,000,000)，收到 "@ + text::decimal(
                        baudrate->0 as nat,
                    ),
                )
            } else if bad_data {
                error == Some("data_bits 仅支持 5-8，收到 "@ + text::decimal(data_bits->0 as nat))
            } else if bad_parity {
                error == Some("parity 仅支持 none/even/odd，收到 "@ + text::str_debug(parity->0@))
            } else if bad_stop {
                error == Some("stop_bits 仅支持 1 或 2，收到 "@ + text::decimal(stop_bits->0 as nat))
            } else if bad_flow {
                error == Some(
                    "flow_control 仅支持 none/software/hardware，收到 "@ + text::str_debug(
                        flow_control->0@,
                    ),
                )
            } else {
                error is None
            }
        }),
{
}

/// Settings that are accepted mean what their numbers and names say; one that is not given is left
/// out.
pub proof fn law_settings_are_meant(
    baudrate: Option<u32>,
    data_bits: Option<u8>,
    parity: Option<String>,
    stop_bits: Option<u8>,
    flow_control: Option<String>,
)
    ensures
        ({
            let s = settings_meant(baudrate, data_bits, parity, stop_bits, flow_control);
            &&& s.baudrate == baudrate
            &&& data_bits is None ==> s.data_bits is None
            &&& data_bits matches Some(d) ==> s.data_bits == manager::data_bits_of(d)
            &&& parity is None ==> s.parity is None
            &&& parity matches Some(n) ==> s.parity == manager::parity_of(n@)
            &&& stop_bits is None ==> s.stop_bits is None
            &&& stop_bits matches Some(d) ==> s.stop_bits == manager::stop_bits_of(d)
            &&& flow_control is None ==> s.flow_control is None
            &&& flow_control matches Some(n) ==> s.flow_control == manager::flow_control_of(n@)
        }),
{
}

/// What `uart_open` opens a port with: 115200 baud, eight data bits, no parity, one stop bit, no
/// flow control, a read timeout of 500 milliseconds and a buffer of 1 MiB, but for what is given.
pub proof fn law_open_has_defaults(args: OpenArgs)
    ensures
        ({
            let c = open_config(args);
            &&& c.baudrate == (match args.baudrate {
                Some(b) => b,
                None => 115_200,
            })
            &&& args.data_bits is None ==> c.data_bits == DataBits::Eight
            &&& args.data_bits matches Some(d) ==> (manager::data_bits_of(d) matches Some(v)
                ==> c.data_bits == v)
            &&& args.parity is None ==> c.parity == Parity::Off
            &&& args.parity matches Some(s) ==> (manager::parity_of(s@) matches Some(v) ==> c.parity
                == v)
            &&& args.stop_bits is None ==> c.stop_bits == StopBits::One
            &&& args.stop_bits matches Some(d) ==> (manager::stop_bits_of(d) matches Some(v)
                ==> c.stop_bits == v)
            &&& args.flow_control is None ==> c.flow_control == FlowControl::Off
            &&& args.flow_control matches Some(s) ==> (manager::flow_control_of(s@) matches Some(v)
                ==> c.flow_control == v)
            &&& c.read_timeout_ms == (match args.read_timeout_ms {
                Some(ms) => ms,
                None => 500,
            })
            &&& c.buffer_size == (match args.buffer_size {
                Some(n) => n,
                None => 1_048_576,
            })
        }),
{
}

/// When `uart_open` and `uart_configure` are refused: the port has no name, a setting is wrong, or
/// the buffer is too large or holds nothing, in this order.
pub proof fn law_open_and_configure_refusals(o: OpenArgs, c: ConfigureArgs)
    ensures
        ({
            let settings = settings_error(
                o.baudrate,
                o.data_bits,
                o.parity,
                o.stop_bits,
                o.flow_control,
            );
            let size: usize = match o.buffer_size {
                Some(n) => n,
                None => 1_048_576,
            };
            open_error(o) == if text::is_blank(o.port@) {
                Some("port 不能为空"@)
            } else if settings is Some {
                settings
            } else if size == 0 || size > 16_777_216 {
                Some("buffer_size must be in 1..="@ + text::decimal(16_777_216) + " bytes"@)
            } else {
                None
            }
        }),
        configure_error(c) == if text::is_blank(c.port@) {
            Some("port 不能为空"@)
        } else {
            settings_error(c.baudrate, c.data_bits, c.parity, c.stop_bits, c.flow_control)
        },
{
}

/// What is written: the data, decoded, and then the line end. Without an encoding they are hex,
/// without a line end there is none.
pub proof fn law_outgoing(data: Seq<char>, mode: Option<String>, newline: Option<String>)
    ensures
        ({
            let m = match mode {
                Some(s) => s@,
                None => "hex"@,
            };
            let n = text::lower(
                match newline {
                    Some(s) => s@,
                    None => "none"@,
                },
            );
            let error = outgoing_error(data, mode, newline);
            let bytes = outgoing_bytes(data, mode, newline);
            &&& send_mode_error(m) is Some ==> error == send_mode_error(m)
            &&& send_mode_error(m) is None && newline_error(n) is Some ==> error == newline_error(n)
            &&& send_mode_error(m) is None && newline_error(n) is None ==> match sent_bytes(data, m) {
                Ok(b) => {
                    &&& error is None
                    &&& n == "lf"@ ==> bytes == b.push(0x0A)
                    &&& n == "crlf"@ ==> bytes == b.push(0x0D).push(0x0A)
                    &&& n != "lf"@ && n != "crlf"@ ==> bytes == b
                },
                Err(e) => error == Some(e),
            }
        }),
{
    let n = text::lower(
        match newline {
            Some(s) => s@,
            None => "none"@,
        },
    );
    law_line_ends(n);
    let m = match mode {
        Some(s) => s@,
        None => "hex"@,
    };
    if let Ok(b) = sent_bytes(data, m) {
        assert(b + seq![0x0Au8] =~= b.push(0x0A));
        assert(b + seq![0x0Du8, 0x0Au8] =~= b.push(0x0D).push(0x0A));
        assert(b + Seq::<u8>::empty() =~= b);
    }
}

/// How a read is planned: 300 milliseconds of silence, 65536 bytes, 5000 milliseconds at most and an
/// answer in hex, but for what is given; at least one byte is always wanted.
pub proof fn law_read_has_defaults(
    plan: ReadPlan,
    port: Seq<char>,
    idle_ms: Option<u64>,
    max_bytes: Option<usize>,
    timeout_ms: Option<u64>,
    read_mode: Option<String>,
)
    requires
        read_plan_is(plan, port, idle_ms, max_bytes, timeout_ms, read_mode),
    ensures
        plan.port@ == port,
        idle_ms is None ==> plan.idle_ms == 300,
        idle_ms matches Some(ms) ==> plan.idle_ms == ms,
        max_bytes is None ==> plan.max_bytes == 65_536,
        max_bytes == Some(0usize) ==> plan.max_bytes == 1,
        max_bytes matches Some(n) ==> (n > 0 ==> plan.max_bytes == n),
        timeout_ms is None ==> plan.timeout_ms == 5_000,
        timeout_ms matches Some(ms) ==> plan.timeout_ms == ms,
        read_mode is None ==> plan.read_mode@ == "hex"@,
        read_mode matches Some(s) ==> plan.read_mode@ == s@,
{
}

/// When `uart_write`, `uart_read` and `uart_exchange` are refused: the port has no name, what is to
/// be written is wrong, the wait is too long, or the encoding of the answer is not known, in this
/// order.
pub proof fn law_read_and_write_refusals(w: WriteArgs, r: ReadArgs, x: ExchangeArgs)
    ensures
        write_error(w) == if text::is_blank(w.port@) {
            Some("port 不能为空"@)
        } else {
            outgoing_error(w.data@, w.mode, w.newline)
        },
        read_error(r) == if text::is_blank(r.port@) {
            Some("port 不能为空"@)
        } else {
            reading_error(r.timeout_ms, r.read_mode)
        },
        exchange_error(x) == if text::is_blank(x.port@) {
            Some("port 不能为空"@)
        } else if outgoing_error(x.data@, x.mode, x.newline) is Some {
            outgoing_error(x.data@, x.mode, x.newline)
        } else {
            reading_error(x.timeout_ms, x.read_mode)
        },
        ({
            let long = r.timeout_ms matches Some(ms) && ms > 300_000;
            let mode = match r.read_mode {
                Some(s) => s@,
                None => "hex"@,
            };
            reading_error(r.timeout_ms, r.read_mode) == if long {
                Some("timeout_ms exceeds the limit of "@ + text::decimal(300_000) + "ms"@)
            } else {
                recv_mode_error(mode)
            }
        }),
{
}

/// How an expectation is planned: 5000 milliseconds at most, the bytes are taken, all unread bytes
/// count, control sequences count as bytes, and the answer is in hex, but for what is given.
pub proof fn law_expectation_has_defaults(
    plan: ExpectPlan,
    port: Seq<char>,
    pattern: Seq<char>,
    pattern_mode: Option<String>,
    newline: Option<String>,
    timeout_ms: Option<u64>,
    consume: Option<bool>,
    match_scope: Option<String>,
    ignore_ansi: Option<bool>,
    read_mode: Option<String>,
)
    requires
        expect_plan_is(
            plan,
            port,
            pattern,
            pattern_mode,
            newline,
            timeout_ms,
            consume,
            match_scope,
            ignore_ansi,
            read_mode,
        ),
    ensures
        plan.port@ == port,
        plan.pattern_text@ == pattern,
        sent_bytes(
            pattern,
            match pattern_mode {
                Some(s) => s@,
                None => "hex"@,
            },
        ) == Ok::<Seq<u8>, Seq<char>>(plan.pattern@),
        plan.newline@ == text::lower(
            match newline {
                Some(s) => s@,
                None => "none"@,
            },
        ),
        timeout_ms is None ==> plan.timeout_ms == 5_000,
        timeout_ms matches Some(ms) ==> plan.timeout_ms == ms,
        consume is None ==> plan.consume,
        consume matches Some(b) ==> plan.consume == b,
        match_scope is None ==> plan.match_scope == MatchScope::Buffer,
        match_scope matches Some(s) ==> scope_of(s@) == Ok::<MatchScope, Seq<char>>(plan.match_scope),
        ignore_ansi is None ==> !plan.ignore_ansi,
        ignore_ansi matches Some(b) ==> plan.ignore_ansi == b,
        read_mode is None ==> plan.read_mode@ == "hex"@,
        read_mode matches Some(s) ==> plan.read_mode@ == s@,
{
    reveal_strlit("buffer");
    assert(text::lower("buffer"@) =~= "buffer"@);
}

/// A pattern or a reply is decoded as it was encoded, in hex if nothing else is said, and refused if
/// its encoding is not known or does not fit it.
pub proof fn law_given_bytes(data: Seq<char>, mode: Option<String>)
    ensures
        ({
            let m = match mode {
                Some(s) => s@,
                None => "hex"@,
            };
            &&& given_bytes(data, mode) == sent_bytes(data, m)
            &&& given_error(data, mode) == if send_mode_error(m) is Some {
                send_mode_error(m)
            } else {
                match sent_bytes(data, m) {
                    Ok(_) => None,
                    Err(e) => Some(e),
                }
            }
        }),
{
}

/// When an expectation is refused for how it is to wait: too long, an unknown scope, or an unknown
/// encoding of the answer, in this order.
pub proof fn law_waiting_refusals(
    timeout_ms: Option<u64>,
    match_scope: Option<String>,
    read_mode: Option<String>,
)
    ensures
        ({
            let long = timeout_ms matches Some(ms) && ms > 300_000;
            let scope = match match_scope {
                Some(s) => s@,
                None => "buffer"@,
            };
            let mode = match read_mode {
                Some(s) => s@,
                None => "hex"@,
            };
            waiting_error(timeout_ms, match_scope, read_mode) == if long {
                Some(
                    "timeout_ms 超出上限 "@ + text::decimal(300_000)
                        + "ms（expect 期间其它需要 I/O 锁的工具调用会排队）"@,
                )
            } else if scope_error(scope) is Some {
                scope_error(scope)
            } else {
                recv_mode_error(mode)
            }
        }),
{
}

/// When `uart_expect` is refused: the port has no name; the pattern cannot be decoded, is longer than
/// 65536 bytes or empty; how it is to wait; the line end; the data cannot be decoded, in this order.
pub proof fn law_expect_refusals(args: ExpectArgs)
    ensures
        ({
            let pattern = given_error(args.pattern@, args.pattern_mode);
            let n = given_bytes(args.pattern@, args.pattern_mode)->Ok_0.len();
            let waiting = waiting_error(args.timeout_ms, args.match_scope, args.read_mode);
            let newline = newline_error(
                text::lower(
                    match args.newline {
                        Some(s) => s@,
                        None => "none"@,
                    },
                ),
            );
            expect_error(args) == if text::is_blank(args.port@) {
                Some("port 不能为空"@)
            } else if pattern is Some {
                pattern
            } else if n > 65_536 {
                Some("pattern exceeds the limit of "@ + text::decimal(65_536) + " bytes"@)
            } else if n == 0 {
                Some("pattern 不能为空"@)
            } else if waiting is Some {
                waiting
            } else if newline is Some {
                newline
            } else {
                match args.data {
                    Some(d) => given_error(d@, args.mode),
                    None => None,
                }
            }
        }),
{
}

/// When `uart_expect_send` is refused: the port has no name; the pattern cannot be decoded, is empty
/// or longer than 65536 bytes; the reply cannot be decoded or is empty without its line end; the
/// line end; how it is to wait, in this order.
pub proof fn law_expect_send_refusals(args: ExpectSendArgs)
    ensures
        ({
            let pattern = given_error(args.pattern@, args.pattern_mode);
            let n = given_bytes(args.pattern@, args.pattern_mode)->Ok_0.len();
            let reply = given_error(args.reply@, args.reply_mode);
            let k = given_bytes(args.reply@, args.reply_mode)->Ok_0.len();
            let waiting = waiting_error(args.timeout_ms, args.match_scope, args.read_mode);
            let newline = newline_error(
                text::lower(
                    match args.newline {
                        Some(s) => s@,
                        None => "none"@,
                    },
                ),
            );
            expect_send_error(args) == if text::is_blank(args.port@) {
                Some("port 不能为空"@)
            } else if pattern is Some {
                pattern
            } else if n == 0 {
                Some("pattern 不能为空"@)
            } else if n > 65_536 {
                Some("pattern exceeds the limit of "@ + text::decimal(65_536) + " bytes"@)
            } else if reply is Some {
                reply
            } else if k == 0 {
                Some("reply 不能为空"@)
            } else if newline is Some {
                newline
            } else {
                waiting
            }
        }),
{
}

/// How the sending of a file is planned: as text, in chunks of 256 bytes, without a pause, but for
/// what is given.
pub proof fn law_sending_has_defaults(
    plan: SendPlan,
    mode: Option<String>,
    chunk_size: Option<usize>,
    gap_ms: Option<u64>,
)
    requires
        send_plan_is(plan, mode, chunk_size, gap_ms),
    ensures
        mode is None ==> plan.mode == SendMode::Text,
        mode matches Some(s) ==> (text::lower(s@) == "text"@ ==> plan.mode == SendMode::Text),
        mode matches Some(s) ==> (text::lower(s@) == "base64"@ ==> plan.mode == SendMode::Base64),
        chunk_size is None ==> plan.chunk_size == 256,
        chunk_size matches Some(n) ==> plan.chunk_size == n,
        gap_ms is None ==> plan.gap_ms == 0,
        gap_ms matches Some(ms) ==> plan.gap_ms == ms,
        1 <= plan.chunk_size <= 1_048_576,
        plan.gap_ms <= 60_000,
{
    reveal_strlit("text");
    reveal_strlit("base64");
    assert(text::lower("text"@) =~= "text"@);
    assert("text"@.len() != "base64"@.len());
}

/// When the sending of a file, or its estimate, is refused: an unknown mode, the size of a chunk, the
/// pause, in this order; for sending, first a port without a name, and last a time limit of nothing;
/// for an estimate, last a baud rate of nothing.
pub proof fn law_sending_refusals(f: SendFileArgs, e: SendEstimateArgs)
    ensures
        ({
            let m = text::lower(
                match f.mode {
                    Some(s) => s@,
                    None => "text"@,
                },
            );
            let gap: u64 = match f.gap_ms {
                Some(ms) => ms,
                None => 0,
            };
            sending_error(f.mode, f.chunk_size, f.gap_ms) == if m != "text"@ && m != "base64"@ {
                Some("mode 必须是 text 或 base64，收到 "@ + text::str_debug(m))
            } else if chunk_size_error(f.chunk_size) is Some {
                chunk_size_error(f.chunk_size)
            } else {
                gap_error(gap)
            }
        }),
        send_file_error(f) == if text::is_blank(f.port@) {
            Some("port 不能为空"@)
        } else if sending_error(f.mode, f.chunk_size, f.gap_ms) is Some {
            sending_error(f.mode, f.chunk_size, f.gap_ms)
        } else if f.max_duration_ms == Some(0u64) {
            Some("max_duration_ms 必须 ≥ 1"@)
        } else {
            None
        },
        estimate_error(e) == if sending_error(e.mode, e.chunk_size, e.gap_ms) is Some {
            sending_error(e.mode, e.chunk_size, e.gap_ms)
        } else if e.baudrate == Some(0u32) {
            Some("baudrate 必须 ≥ 1"@)
        } else {
            None
        },
{
}

/// What the answer of a read says: the bytes in the encoding that was asked for, how many they are,
/// why the read ended, the losses, and whether bytes are unread or came in.
pub proof fn law_read_reply(reply: ReadReply, outcome: ReadOutcome, read_mode: Seq<char>)
    requires
        read_reply_is(reply, outcome, read_mode),
    ensures
        reply.bytes == outcome.data@.len(),
        text::lower(read_mode) == "hex"@ ==> reply.mode@ == "hex"@ && reply.data@ == hex::hex_text(
            outcome.data@,
        ),
        text::lower(read_mode) == "text-escaped"@ ==> reply.mode@ == "text-escaped"@ && reply.data@
            == hex::escaped(outcome.data@),
        text::lower(read_mode) == "text"@ && hex::is_text_bytes(outcome.data@) ==> reply.mode@
            == "text"@ && reply.data@ == decode_utf8(outcome.data@),
        text::lower(read_mode) == "text"@ && !hex::is_text_bytes(outcome.data@) ==> reply.mode@
            == "hex (text 降级)"@ && reply.data@ == hex::hex_text(outcome.data@),
        outcome.reason == ReadReason::Idle ==> reply.reason@ == "idle"@,
        outcome.reason == ReadReason::MaxBytes ==> reply.reason@ == "max_bytes"@,
        outcome.reason == ReadReason::Timeout ==> reply.reason@ == "timeout"@,
        reply.overflow_delta == outcome.overflow_delta,
        reply.overflow_total == outcome.overflow_total,
        reply.buffered_bytes == outcome.buffered,
        reply.pending == (outcome.buffered > 0),
        reply.new_data_observed == outcome.new_data_observed,
{
    law_answers_are_encoded(outcome.data@, read_mode);
}

/// A check is passed exactly if nothing is wrong, and else gives the message of what is. Bytes that
/// were decoded are given as they are, and so is the message if they could not be.
pub proof fn law_checks_tell_what_is_wrong(
    r: Result<(), String>,
    b: Result<Vec<u8>, String>,
    e: Option<Seq<char>>,
)
    requires
        check_is(r, e),
    ensures
        r is Ok == e is None,
        r matches Err(m) ==> e == Some(m@),
        b matches Ok(bytes) ==> bytes_or_error(b) == Ok::<Seq<u8>, Seq<char>>(bytes@) && error_in(
            bytes_or_error(b),
        ) is None,
        b matches Err(m) ==> bytes_or_error(b) == Err::<Seq<u8>, Seq<char>>(m@) && error_in(
            bytes_or_error(b),
        ) == Some(m@),
{
}

}
