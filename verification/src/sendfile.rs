//! Sending a file: cutting it into chunks, optional base64 with line breaks, and the estimate of
//! size and time.
//!
//! The bytes of the file go out as they are, or base64 encoded: nothing is parsed, no protocol is
//! spoken, no end-of-file mark is sent.

use vstd::prelude::*;
use vstd::slice::slice_subrange;
use vstd::string::StringExecFns;

use crate::b64;
use crate::text;

verus! {

/// How many base64 characters stand on a line.
pub const BASE64_LINE_WIDTH: usize = 76;

/// How many bytes of the file make a chunk, unless the caller says otherwise.
pub const DEFAULT_CHUNK_SIZE: usize = 256;

/// The largest chunk that may be asked for.
pub const MAX_CHUNK_SIZE: usize = 1024 * 1024;

/// How many bytes of the file are read at once, at most.
pub const READ_SIZE: usize = 4096;

/// How the bytes of the file are sent.
#[derive(Debug, Clone, Copy, PartialEq, Eq, Structural)]
pub enum SendMode {
    /// As they are.
    Text,
    /// As base64: a line break after every 76 characters, and one at the end.
    Base64,
}

/// The name of a mode.
pub open spec fn mode_name(mode: SendMode) -> Seq<char> {
    match mode {
        SendMode::Text => "text"@,
        SendMode::Base64 => "base64"@,
    }
}

impl SendMode {
    /// Parses the name of a mode, in upper or lower case.
    pub fn parse(s: &str) -> (r: Result<Self, String>)
        ensures
            match r {
                Ok(mode) => text::lower(s@) == mode_name(mode),
                Err(e) => {
                    &&& text::lower(s@) != mode_name(SendMode::Text)
                    &&& text::lower(s@) != mode_name(SendMode::Base64)
                    &&& e@ == "mode 必须是 text 或 base64，收到 "@ + text::str_debug(
                        text::lower(s@),
                    )
                },
            },
    {
        let folded = text::ascii_lower(s);
        if text::same(folded.as_str(), "text") {
            Ok(SendMode::Text)
        } else if text::same(folded.as_str(), "base64") {
            Ok(SendMode::Base64)
        } else {
            let mut message = "mode 必须是 text 或 base64，收到 ".to_owned();
            message.append(text::debug_str(folded.as_str()).as_str());
            Err(message)
        }
    }

    /// The name of the mode.
    pub fn as_str(&self) -> (r: &'static str)
        ensures
            r@ == mode_name(*self),
    {
        match self {
            SendMode::Text => "text",
            SendMode::Base64 => "base64",
        }
    }
}

/// A base64 text in lines: a line break stands before every character whose line is full.
pub open spec fn lines(e: Seq<u8>) -> Seq<u8> {
    Seq::new(
        if e.len() == 0 {
            0
        } else {
            (e.len() + (e.len() - 1) / BASE64_LINE_WIDTH as int) as nat
        },
        |i: int|
            if i % 77 == 76 {
                10u8
            } else {
                e[i - i / 77]
            },
    )
}

/// What a whole file is sent as.
pub open spec fn wire(mode: SendMode, file: Seq<u8>) -> Seq<u8> {
    match mode {
        SendMode::Text => file,
        SendMode::Base64 => if file.len() == 0 {
            seq![]
        } else {
            lines(b64::encoded(file)).push(10)
        },
    }
}

/// How many bytes a file of `n` bytes is sent as.
pub open spec fn sent_len(mode: SendMode, n: int) -> int {
    match mode {
        SendMode::Text => n,
        SendMode::Base64 => {
            let symbols = (n + 2) / 3 * 4;
            symbols + (symbols + 75) / 76
        },
    }
}

/// The estimated size is the exact size of what is sent.
pub proof fn law_sent_len(mode: SendMode, file: Seq<u8>)
    ensures
        wire(mode, file).len() == sent_len(mode, file.len() as int),
{
}

/// How many of the first `k` chunks of `c` bytes complete a group of three bytes, and so send
/// something in base64.
pub open spec fn cuts(k: int, c: int) -> int
    decreases k,
{
    if k <= 0 {
        0
    } else if k * c / 3 > (k - 1) * c / 3 {
        cuts(k - 1, c) + 1
    } else {
        cuts(k - 1, c)
    }
}

/// How many chunks the full chunks of a file are sent as.
pub open spec fn full_chunks(mode: SendMode, k: int, c: int) -> int {
    match mode {
        SendMode::Text => k,
        SendMode::Base64 => cuts(k, c),
    }
}

/// Whether the short chunk at the end of a file of `n` bytes sends something.
pub open spec fn short_chunk(mode: SendMode, n: int, c: int) -> bool {
    n % c > 0 && match mode {
        SendMode::Text => true,
        SendMode::Base64 => n / 3 > n / c * c / 3,
    }
}

/// How many chunks a file of `n` bytes is sent as. In base64 one more ends the last line.
pub open spec fn chunk_count(mode: SendMode, n: int, c: int) -> int {
    full_chunks(mode, n / c, c) + (if short_chunk(mode, n, c) {
        1int
    } else {
        0int
    }) + (if mode == SendMode::Base64 && n > 0 {
        1int
    } else {
        0int
    })
}

/// How many milliseconds sending takes: ten bits for each byte, and the gaps between chunks.
pub open spec fn send_time(sent: int, chunks: int, gap_ms: int, baudrate: int) -> int {
    sent * 10000 / baudrate + chunks * gap_ms
}

/// At least one.
pub open spec fn at_least_one(n: int) -> int {
    if n < 1 {
        1
    } else {
        n
    }
}

/// The words for how the estimate is made.
pub open spec fn formula_text(mode: SendMode) -> Seq<char> {
    match mode {
        SendMode::Text => "text: sent = file_size; time = sent × 10 / baudrate + chunks × gap_ms"@,
        SendMode::Base64 =>
            "base64: sent = ceil(file_size/3)×4 + 换行数; time = sent × 10 / baudrate + chunks × gap_ms"@,
    }
}

/// The estimate of a transfer.
#[derive(Debug)]
pub struct Estimate {
    /// The size of the file.
    pub file_size: u64,
    /// The mode's name.
    pub mode: String,
    /// How many bytes of the file make a chunk.
    pub chunk_size: usize,
    /// The pause after each chunk, in milliseconds.
    pub gap_ms: u64,
    /// The baud rate.
    pub baudrate: u32,
    /// How many bytes will be written, line breaks included.
    pub est_sent_bytes: u64,
    /// How many chunks will be written.
    pub est_chunks: u64,
    /// How long it will take, in milliseconds.
    pub est_time_ms: u64,
    /// How the estimate is made.
    pub formula: String,
}

/// The numbers of the estimate fit in 64 bits.
pub open spec fn estimate_fits(
    mode: SendMode,
    file_size: u64,
    chunk_size: usize,
    gap_ms: u64,
    baudrate: u32,
) -> bool {
    let n = file_size as int;
    let sent = sent_len(mode, n);
    let chunks = chunk_count(mode, n, at_least_one(chunk_size as int));
    &&& sent <= u64::MAX
    &&& chunks <= u64::MAX
    &&& send_time(sent, chunks, gap_ms as int, at_least_one(baudrate as int)) <= u64::MAX
}

/// What an estimate says.
pub open spec fn estimate_is(
    mode: SendMode,
    file_size: u64,
    chunk_size: usize,
    gap_ms: u64,
    baudrate: u32,
    e: Estimate,
) -> bool {
    let n = file_size as int;
    let sent = sent_len(mode, n);
    let chunks = chunk_count(mode, n, at_least_one(chunk_size as int));
    &&& e.file_size == file_size
    &&& e.mode@ == mode_name(mode)
    &&& e.chunk_size == chunk_size
    &&& e.gap_ms == gap_ms
    &&& e.baudrate == baudrate
    &&& e.est_sent_bytes == sent
    &&& e.est_chunks == chunks
    &&& e.est_time_ms == send_time(sent, chunks, gap_ms as int, at_least_one(baudrate as int))
    &&& e.formula@ == formula_text(mode)
}

proof fn lemma_cuts(k: int, c: int)
    requires
        0 <= k,
        1 <= c,
    ensures
        cuts(k, c) == if c <= 3 {
            k * c / 3
        } else {
            k
        },
    decreases k,
{
    if k > 0 {
        lemma_cuts(k - 1, c);
        assert(k * c == (k - 1) * c + c) by (nonlinear_arith);
    } else {
        assert(0 * c == 0);
    }
}

/// Estimates size, chunks and time of a transfer; `None` where a number does not fit in 64 bits.
pub fn checked_estimate(
    mode: SendMode,
    file_size: u64,
    chunk_size: usize,
    gap_ms: u64,
    baudrate: u32,
) -> (r: Option<Estimate>)
    ensures
        match r {
            Some(e) => estimate_fits(mode, file_size, chunk_size, gap_ms, baudrate) && estimate_is(
                mode,
                file_size,
                chunk_size,
                gap_ms,
                baudrate,
                e,
            ),
            None => !estimate_fits(mode, file_size, chunk_size, gap_ms, baudrate),
        },
{
    let c: u64 = if chunk_size < 1 {
        1
    } else {
        chunk_size as u64
    };
    let baud: u128 = if baudrate < 1 {
        1
    } else {
        baudrate as u128
    };
    let n: u128 = file_size as u128;
    let full: u64 = file_size / c;
    let rest: u64 = file_size % c;
    proof {
        let (a, b) = (file_size as int, c as int);
        assert(a == a / b * b + a % b && 0 <= a % b < b && 0 <= a / b && a / b <= a)
            by (nonlinear_arith)
            requires
                0 <= a,
                1 <= b,
        ;
        lemma_cuts(full as int, b);
    }
    let whole: u64 = file_size - rest;
    let (sent, chunks): (u128, u128) = match mode {
        SendMode::Text => (
            n,
            full as u128 + if rest > 0 {
                1
            } else {
                0
            },
        ),
        SendMode::Base64 => {
            let symbols: u128 = (n + 2) / 3 * 4;
            let filled: u128 = if c <= 3 {
                (whole / 3) as u128
            } else {
                full as u128
            };
            let short: u128 = if rest > 0 && file_size / 3 > whole / 3 {
                1
            } else {
                0
            };
            let last: u128 = if n > 0 {
                1
            } else {
                0
            };
            (symbols + (symbols + 75) / 76, filled + short + last)
        },
    };
    let max: u128 = u64::MAX as u128;
    assert(sent == sent_len(mode, file_size as int));
    assert(chunks == chunk_count(mode, file_size as int, c as int));
    if sent > max || chunks > max {
        return None;
    }
    let gap: u128 = gap_ms as u128;
    assert(0 <= chunks * gap <= 0xFFFF_FFFF_FFFF_FFFF * 0xFFFF_FFFF_FFFF_FFFF) by (nonlinear_arith)
        requires
            0 <= chunks <= 0xFFFF_FFFF_FFFF_FFFF,
            0 <= gap <= 0xFFFF_FFFF_FFFF_FFFF,
    ;
    let wire_ms: u128 = sent * 10000 / baud;
    proof {
        let x = sent * 10000;
        let y = baud as int;
        assert(0 <= x / y <= x) by (nonlinear_arith)
            requires
                0 <= x,
                1 <= y,
        ;
    }
    let gap_total: u128 = chunks * gap;
    if wire_ms > max || gap_total > max || wire_ms + gap_total > max {
        return None;
    }
    let time: u128 = wire_ms + gap_total;
    let formula = match mode {
        SendMode::Text =>
            "text: sent = file_size; time = sent × 10 / baudrate + chunks × gap_ms".to_owned(),
        SendMode::Base64 =>
            "base64: sent = ceil(file_size/3)×4 + 换行数; time = sent × 10 / baudrate + chunks × gap_ms".to_owned(),
    };
    Some(
        Estimate {
            file_size,
            mode: mode.as_str().to_owned(),
            chunk_size,
            gap_ms,
            baudrate,
            est_sent_bytes: sent as u64,
            est_chunks: chunks as u64,
            est_time_ms: time as u64,
            formula,
        },
    )
}

/// Estimates size, chunks and time of a transfer.
pub fn estimate(
    mode: SendMode,
    file_size: u64,
    chunk_size: usize,
    gap_ms: u64,
    baudrate: u32,
) -> (r: Estimate)
    requires
        estimate_fits(mode, file_size, chunk_size, gap_ms, baudrate),
    ensures
        estimate_is(mode, file_size, chunk_size, gap_ms, baudrate, r),
{
    checked_estimate(mode, file_size, chunk_size, gap_ms, baudrate).unwrap()
}

/// Where the cutting of a file stands.
#[derive(Debug, Clone, Copy, PartialEq, Eq, Structural)]
pub enum ChunkState {
    /// More of the file is to be read.
    Reading,
    /// The file has ended.
    Finished,
    /// The file could not be read.
    Failed,
}

/// The state of the cutting of a file.
pub struct ChunkView {
    /// The file's path.
    pub path: Seq<char>,
    /// How it is sent.
    pub mode: SendMode,
    /// How many bytes make a chunk.
    pub chunk_size: int,
    /// The bytes cut so far.
    pub taken: Seq<u8>,
    /// The bytes read for the next chunk.
    pub buf: Seq<u8>,
    /// Where it stands.
    pub state: ChunkState,
}

/// The cutting of a file at its start.
pub open spec fn fresh(path: Seq<char>, mode: SendMode, chunk_size: int) -> ChunkView {
    ChunkView {
        path,
        mode,
        chunk_size: at_least_one(chunk_size),
        taken: seq![],
        buf: seq![],
        state: ChunkState::Reading,
    }
}

/// The whole groups of three bytes at the start.
pub open spec fn groups(bytes: Seq<u8>) -> Seq<u8> {
    bytes.take(bytes.len() as int / 3 * 3)
}

/// The one or two bytes behind the whole groups of three.
pub open spec fn left_over(bytes: Seq<u8>) -> Seq<u8> {
    bytes.skip(bytes.len() as int / 3 * 3)
}

/// What has been sent so far.
pub open spec fn emitted(v: ChunkView) -> Seq<u8> {
    if v.state == ChunkState::Finished {
        wire(v.mode, v.taken)
    } else {
        match v.mode {
            SendMode::Text => v.taken,
            SendMode::Base64 => lines(b64::encoded(groups(v.taken))),
        }
    }
}

/// How many bytes are to be read next, at most.
pub open spec fn wanted(v: ChunkView) -> int {
    if v.chunk_size - v.buf.len() < READ_SIZE {
        v.chunk_size - v.buf.len()
    } else {
        READ_SIZE as int
    }
}

/// The state after a read of the file. A read of no bytes is the end of the file; it ends a short
/// chunk, or else the file.
pub open spec fn stepped(v: ChunkView, read: Result<Seq<u8>, Seq<char>>) -> ChunkView {
    if v.state != ChunkState::Reading {
        v
    } else {
        match read {
            Err(_) => ChunkView { state: ChunkState::Failed, ..v },
            Ok(data) => if data.len() == 0 && v.buf.len() == 0 {
                ChunkView { state: ChunkState::Finished, ..v }
            } else if data.len() == 0 || v.buf.len() + data.len() >= v.chunk_size {
                ChunkView { taken: v.taken + (v.buf + data), buf: seq![], ..v }
            } else {
                ChunkView { buf: v.buf + data, ..v }
            },
        }
    }
}

/// The bytes that a read of the file makes ready to send.
pub open spec fn ready(v: ChunkView, read: Result<Seq<u8>, Seq<char>>) -> Seq<u8> {
    emitted(stepped(v, read)).skip(emitted(v).len() as int)
}

/// The message for a file that cannot be read.
pub open spec fn read_failed(path: Seq<char>, error: Seq<char>) -> Seq<char> {
    "读取文件失败: "@ + path + ": "@ + error
}

/// What comes after a read of the file.
#[derive(Debug)]
pub enum Step {
    /// Nothing yet: read again.
    Read,
    /// A chunk to send.
    Chunk(Vec<u8>),
    /// Nothing more to send.
    End,
    /// The file cannot be read, with the message.
    Failed(String),
}

/// The step that a read of the file calls for.
pub open spec fn step_is(v: ChunkView, read: Result<Seq<u8>, Seq<char>>, step: Step) -> bool {
    if v.state != ChunkState::Reading {
        step is End
    } else {
        match read {
            Err(e) => step matches Step::Failed(m) && m@ == read_failed(v.path, e),
            Ok(_) => if ready(v, read).len() > 0 {
                step matches Step::Chunk(c) && c@ == ready(v, read)
            } else if stepped(v, read).state == ChunkState::Finished {
                step is End
            } else {
                step is Read
            },
        }
    }
}

/// How far the last line reaches when `n` characters have been written.
pub open spec fn line_end(n: int) -> int {
    if n <= 0 {
        0
    } else {
        (n - 1) % 76 + 1
    }
}

proof fn lemma_lines_push(e: Seq<u8>, x: u8)
    ensures
        lines(e.push(x)) == (if line_end(e.len() as int) == 76 {
            lines(e).push(10)
        } else {
            lines(e)
        }).push(x),
{
    let a = lines(e.push(x));
    let b = (if line_end(e.len() as int) == 76 {
        lines(e).push(10)
    } else {
        lines(e)
    }).push(x);
    assert(a.len() == b.len());
    assert forall|i: int| 0 <= i < a.len() implies a[i] == b[i] by {}
    assert(a =~= b);
}

proof fn lemma_lines_prefix(a: Seq<u8>, b: Seq<u8>)
    ensures
        lines(a).len() <= lines(a + b).len(),
        lines(a) == lines(a + b).take(lines(a).len() as int),
        b.len() > 0 ==> lines(a).len() < lines(a + b).len(),
{
    assert(lines(a) =~= lines(a + b).take(lines(a).len() as int));
}

proof fn lemma_groups_grow(taken: Seq<u8>, more: Seq<u8>)
    ensures
        ({
            let old_groups = groups(taken);
            let new_groups = groups(taken + more);
            let tail = left_over(taken) + more;
            &&& old_groups.len() % 3 == 0
            &&& new_groups == old_groups + groups(tail)
            &&& left_over(tail) == left_over(taken + more)
            &&& b64::encoded(new_groups) == b64::encoded(old_groups) + b64::encoded(
                groups(tail),
            )
        }),
{
    let old_groups = groups(taken);
    let all = taken + more;
    let new_groups = groups(all);
    let tail = left_over(taken) + more;
    assert(taken.len() / 3 * 3 + tail.len() / 3 * 3 == all.len() / 3 * 3);
    assert(new_groups =~= old_groups + groups(tail));
    assert(left_over(tail) =~= left_over(all));
    b64::law_encoded_in_pieces(old_groups, groups(tail));
}

/// Nothing that was sent is taken back: a read only adds to it.
pub proof fn law_emitted_grows(v: ChunkView, read: Result<Seq<u8>, Seq<char>>)
    ensures
        emitted(v) + ready(v, read) == emitted(stepped(v, read)),
{
    let w = stepped(v, read);
    if v.state == ChunkState::Reading {
        if w.state == ChunkState::Finished {
            let rest = left_over(v.taken);
            assert(v.taken =~= groups(v.taken) + rest);
            b64::law_encoded_in_pieces(groups(v.taken), rest);
            lemma_lines_prefix(b64::encoded(groups(v.taken)), b64::encoded(rest));
        } else if w.state == ChunkState::Reading {
            if w.taken != v.taken {
                let more = v.buf + read->Ok_0;
                lemma_groups_grow(v.taken, more);
                let tail = left_over(v.taken) + more;
                lemma_lines_prefix(
                    b64::encoded(groups(v.taken)),
                    b64::encoded(groups(tail)),
                );
            }
        }
    }
    assert(emitted(v) + ready(v, read) =~= emitted(w));
}

/// Cuts a file into chunks as it is read.
///
/// In text mode a chunk is `chunk_size` bytes, the last one perhaps fewer. In base64 mode a chunk
/// is what the bytes complete: one or two bytes may wait for the next chunk, so that padding comes
/// only at the end of the file, and lines run on from chunk to chunk.
pub struct ChunkIter {
    path: String,
    mode: SendMode,
    chunk_size: usize,
    line_pos: usize,
    base64_tail: Vec<u8>,
    buf: Vec<u8>,
    state: ChunkState,
    taken: Ghost<Seq<u8>>,
}

impl View for ChunkIter {
    type V = ChunkView;

    closed spec fn view(&self) -> ChunkView {
        ChunkView {
            path: self.path@,
            mode: self.mode,
            chunk_size: self.chunk_size as int,
            taken: self.taken@,
            buf: self.buf@,
            state: self.state,
        }
    }
}

impl ChunkIter {
    /// The state is valid: a chunk is cut as soon as it is full.
    pub closed spec fn wf(&self) -> bool {
        &&& 1 <= self.chunk_size <= isize::MAX / 2
        &&& self.buf@.len() < self.chunk_size
        &&& self.encoder_wf()
    }

    /// What the encoder keeps between chunks.
    spec fn encoder_wf(&self) -> bool {
        self.mode == SendMode::Base64 && self.state == ChunkState::Reading ==> {
            &&& self.base64_tail@ == left_over(self.taken@)
            &&& self.line_pos == line_end(b64::encoded(groups(self.taken@)).len() as int)
        }
    }

    /// What validity means for the bytes read ahead.
    pub proof fn law_room(&self)
        requires
            self.wf(),
        ensures
            self@.buf.len() < self@.chunk_size,
            1 <= wanted(self@) <= READ_SIZE,
    {
    }

    /// Starts to cut a file. A chunk holds at least one byte.
    pub fn new(path: &str, mode: SendMode, chunk_size: usize) -> (r: Self)
        requires
            chunk_size <= isize::MAX / 2,
        ensures
            r.wf(),
            r@ == fresh(path@, mode, chunk_size as int),
    {
        let r = ChunkIter {
            path: path.to_owned(),
            mode,
            chunk_size: if chunk_size < 1 {
                1
            } else {
                chunk_size
            },
            line_pos: 0,
            base64_tail: Vec::new(),
            buf: Vec::new(),
            state: ChunkState::Reading,
            taken: Ghost(Seq::empty()),
        };
        assert(r.base64_tail@ =~= r.taken@.skip(0));
        r
    }

    /// How many bytes to read next, at most.
    pub fn want(&self) -> (r: usize)
        requires
            self.wf(),
        ensures
            r == wanted(self@),
            1 <= r <= READ_SIZE,
    {
        let room: usize = self.chunk_size - self.buf.len();
        if room < READ_SIZE {
            room
        } else {
            READ_SIZE
        }
    }

    /// Breaks base64 characters into lines that go on from those written before.
    fn wrap_base64(&mut self, enc: &Vec<u8>, Ghost(before): Ghost<Seq<u8>>) -> (r: Vec<u8>)
        requires
            old(self).line_pos == line_end(before.len() as int),
        ensures
            lines(before) + r@ == lines(before + enc@),
            *final(self) == (ChunkIter { line_pos: final(self).line_pos, ..*old(self) }),
            final(self).line_pos == line_end((before + enc@).len() as int),
    {
        let mut out: Vec<u8> = Vec::new();
        let ghost start = *self;
        let mut i: usize = 0;
        assert(before + enc@.take(0) =~= before);
        assert(lines(before) + out@ =~= lines(before));
        while i < enc.len()
            invariant
                i <= enc@.len(),
                lines(before) + out@ == lines(before + enc@.take(i as int)),
                *self == (ChunkIter { line_pos: self.line_pos, ..start }),
                self.line_pos == line_end((before + enc@.take(i as int)).len() as int),
            decreases enc@.len() - i,
        {
            let ghost so_far = before + enc@.take(i as int);
            let ghost out_before = out@;
            let b: u8 = enc[i];
            if self.line_pos >= BASE64_LINE_WIDTH {
                out.push(10);
                self.line_pos = 0;
            }
            out.push(b);
            self.line_pos = self.line_pos + 1;
            proof {
                lemma_lines_push(so_far, b);
                assert(so_far.push(b) =~= before + enc@.take(i + 1));
                assert(lines(before) + out@ =~= lines(so_far.push(b)));
            }
            i += 1;
        }
        assert(enc@.take(enc@.len() as int) =~= enc@);
        out
    }

    /// Encodes the bytes of a chunk; one or two of them may wait for the next one.
    fn encode_chunk(&mut self, raw: &Vec<u8>) -> (r: Vec<u8>)
        requires
            old(self).mode == SendMode::Base64,
            old(self).state == ChunkState::Reading,
            old(self).encoder_wf(),
            old(self).chunk_size <= isize::MAX / 2,
            raw@.len() <= old(self).chunk_size,
        ensures
            final(self).encoder_wf(),
            final(self)@ == (ChunkView { taken: old(self)@.taken + raw@, ..old(self)@ }),
            emitted(old(self)@) + r@ == emitted(final(self)@),
    {
        let ghost start = *self;
        let ghost before = b64::encoded(groups(self.taken@));
        let mut input: Vec<u8> = Vec::new();
        input.extend_from_slice(self.base64_tail.as_slice());
        input.extend_from_slice(raw.as_slice());
        let complete_len: usize = input.len() / 3 * 3;
        let complete = slice_subrange(input.as_slice(), 0, complete_len);
        let rest = slice_subrange(input.as_slice(), complete_len, input.len());
        let mut tail: Vec<u8> = Vec::new();
        tail.extend_from_slice(rest);
        self.base64_tail = tail;
        self.taken = Ghost(self.taken@ + raw@);
        proof {
            lemma_groups_grow(start.taken@, raw@);
            assert(input@ =~= left_over(start.taken@) + raw@);
            assert(complete@ =~= input@.take(complete_len as int));
            assert(rest@ =~= input@.skip(complete_len as int));
            assert(self.base64_tail@ =~= rest@);
        }
        if complete_len == 0 {
            assert(b64::encoded(complete@) =~= Seq::<u8>::empty());
            assert(before + Seq::<u8>::empty() =~= before);
            let none: Vec<u8> = Vec::new();
            assert(emitted(start@) + none@ =~= emitted(self@));
            return none;
        }
        let enc = b64::encode(complete);
        self.wrap_base64(&enc, Ghost(before))
    }

    /// Encodes the bytes that wait at the end of the file, and ends the last line.
    fn finish_base64(&mut self) -> (r: Vec<u8>)
        requires
            old(self).mode == SendMode::Base64,
            old(self).state == ChunkState::Reading,
            old(self).encoder_wf(),
        ensures
            final(self)@ == (ChunkView { state: ChunkState::Finished, ..old(self)@ }),
            final(self).chunk_size == old(self).chunk_size,
            final(self).buf@ == old(self).buf@,
            emitted(old(self)@) + r@ == emitted(final(self)@),
    {
        let ghost start = *self;
        let ghost before = b64::encoded(groups(self.taken@));
        let ghost rest = self.base64_tail@;
        proof {
            assert(self.taken@ =~= groups(self.taken@) + rest);
            b64::law_encoded_in_pieces(groups(self.taken@), rest);
        }
        let mut out: Vec<u8> = Vec::new();
        if self.base64_tail.len() > 0 {
            let enc = b64::encode(self.base64_tail.as_slice());
            out = self.wrap_base64(&enc, Ghost(before));
            self.base64_tail = Vec::new();
        } else {
            assert(b64::encoded(rest) =~= Seq::<u8>::empty());
            assert(before + Seq::<u8>::empty() =~= before);
            assert(lines(before) + out@ =~= lines(before));
        }
        let ghost unbroken = out@;
        if self.line_pos > 0 {
            out.push(10);
            self.line_pos = 0;
        }
        self.state = ChunkState::Finished;
        assert(emitted(start@) + out@ =~= emitted(self@));
        out
    }

    /// Takes what a read of the file gave, and says what comes next. No bytes means that the file
    /// has ended. Once `End` or `Failed` was said, `End` is said for good.
    pub fn next(&mut self, read: Result<Vec<u8>, String>) -> (r: Step)
        requires
            old(self).wf(),
            read matches Ok(data) ==> data@.len() <= wanted(old(self)@),
        ensures
            final(self).wf(),
            final(self)@ == stepped(old(self)@, read_view(read)),
            step_is(old(self)@, read_view(read), r),
    {
        let ghost start = *self;
        let ghost given = read_view(read);
        match self.state {
            ChunkState::Reading => {},
            _ => {
                return Step::End;
            },
        }
        proof {
            law_emitted_grows(start@, given);
        }
        match read {
            Err(e) => {
                self.state = ChunkState::Failed;
                let mut message = "读取文件失败: ".to_owned();
                message.append(self.path.as_str());
                message.append(": ");
                message.append(e.as_str());
                Step::Failed(message)
            },
            Ok(data) => {
                if data.len() == 0 && self.buf.len() == 0 {
                    let out = match self.mode {
                        SendMode::Text => {
                            self.state = ChunkState::Finished;
                            Vec::new()
                        },
                        SendMode::Base64 => self.finish_base64(),
                    };
                    assert(emitted(start@) + out@ =~= emitted(self@));
                    assert(out@ =~= ready(start@, given));
                    if out.len() == 0 {
                        Step::End
                    } else {
                        Step::Chunk(out)
                    }
                } else {
                    let last = data.len() == 0;
                    self.buf.extend_from_slice(data.as_slice());
                    assert(self.buf@ =~= start.buf@ + data@);
                    if !last && self.buf.len() < self.chunk_size {
                        assert(ready(start@, given) =~= Seq::<u8>::empty());
                        return Step::Read;
                    }
                    let mut raw: Vec<u8> = Vec::new();
                    std::mem::swap(&mut raw, &mut self.buf);
                    let chunk = match self.mode {
                        SendMode::Text => {
                            self.taken = Ghost(self.taken@ + raw@);
                            raw
                        },
                        SendMode::Base64 => self.encode_chunk(&raw),
                    };
                    assert(emitted(start@) + chunk@ =~= emitted(self@));
                    assert(chunk@ =~= ready(start@, given));
                    if chunk.len() == 0 {
                        Step::Read
                    } else {
                        Step::Chunk(chunk)
                    }
                }
            },
        }
    }
}

/// The outcome of a read, as values.
pub open spec fn read_view(read: Result<Vec<u8>, String>) -> Result<Seq<u8>, Seq<char>> {
    match read {
        Ok(data) => Ok(data@),
        Err(e) => Err(e@),
    }
}

/// The state after several reads, each of which gave bytes or the end of the file.
pub open spec fn run(v: ChunkView, reads: Seq<Seq<u8>>) -> ChunkView
    decreases reads.len(),
{
    if reads.len() == 0 {
        v
    } else {
        stepped(run(v, reads.drop_last()), Ok(reads.last()))
    }
}

/// All that several reads make ready to send.
pub open spec fn run_bytes(v: ChunkView, reads: Seq<Seq<u8>>) -> Seq<u8>
    decreases reads.len(),
{
    if reads.len() == 0 {
        seq![]
    } else {
        run_bytes(v, reads.drop_last()) + ready(run(v, reads.drop_last()), Ok(reads.last()))
    }
}

/// How many chunks several reads make ready to send.
pub open spec fn run_chunks(v: ChunkView, reads: Seq<Seq<u8>>) -> int
    decreases reads.len(),
{
    if reads.len() == 0 {
        0
    } else {
        run_chunks(v, reads.drop_last()) + (if ready(
            run(v, reads.drop_last()),
            Ok(reads.last()),
        ).len() > 0 {
            1int
        } else {
            0int
        })
    }
}

/// The chunks that several reads make ready to send.
pub open spec fn run_list(v: ChunkView, reads: Seq<Seq<u8>>) -> Seq<Seq<u8>>
    decreases reads.len(),
{
    if reads.len() == 0 {
        seq![]
    } else {
        let before = run_list(v, reads.drop_last());
        let more = ready(run(v, reads.drop_last()), Ok(reads.last()));
        if more.len() > 0 {
            before.push(more)
        } else {
            before
        }
    }
}

/// How many bytes several chunks hold.
pub open spec fn total_len(chunks: Seq<Seq<u8>>) -> int
    decreases chunks.len(),
{
    if chunks.len() == 0 {
        0
    } else {
        total_len(chunks.drop_last()) + chunks.last().len()
    }
}

proof fn lemma_list(v: ChunkView, reads: Seq<Seq<u8>>)
    ensures
        run_list(v, reads).len() == run_chunks(v, reads),
        total_len(run_list(v, reads)) == run_bytes(v, reads).len(),
        joined(run_list(v, reads)) == run_bytes(v, reads),
        forall|i: int| 0 <= i < run_list(v, reads).len() ==> (#[trigger] run_list(v, reads)[i]).len()
            > 0,
    decreases reads.len(),
{
    if reads.len() > 0 {
        lemma_list(v, reads.drop_last());
        let before = run_list(v, reads.drop_last());
        let more = ready(run(v, reads.drop_last()), Ok(reads.last()));
        assert(before.push(more).drop_last() =~= before);
        assert(joined(before) + more =~= run_bytes(v, reads));
    }
}

/// The estimate is exact: the chunks that a file of this size is cut into are as many as it says,
/// and hold as many bytes.
pub proof fn law_estimate_is_exact(
    path: Seq<char>,
    mode: SendMode,
    chunk_size: usize,
    gap_ms: u64,
    baudrate: u32,
    e: Estimate,
    reads: Seq<Seq<u8>>,
)
    requires
        reads_ok(fresh(path, mode, chunk_size as int), reads),
        joined(reads).len() <= u64::MAX,
        estimate_is(mode, joined(reads).len() as u64, chunk_size, gap_ms, baudrate, e),
    ensures
        e.est_chunks == file_chunks(path, mode, chunk_size as int, reads).len(),
        e.est_sent_bytes == total_len(file_chunks(path, mode, chunk_size as int, reads)),
        e.est_sent_bytes == wire(mode, joined(reads)).len(),
{
    law_chunks_of_file(path, mode, chunk_size as int, reads);
}

/// The chunks that a file is sent as: those that its reads make ready, and those at its end.
pub open spec fn file_chunks(
    path: Seq<char>,
    mode: SendMode,
    chunk_size: int,
    reads: Seq<Seq<u8>>,
) -> Seq<Seq<u8>> {
    run_list(fresh(path, mode, chunk_size), reads.push(seq![]).push(seq![]))
}

/// The chunks of a file make up what it is sent as, none of them is empty, and there are as many of
/// them, with as many bytes, as is computed from its size.
pub proof fn law_chunks_of_file(
    path: Seq<char>,
    mode: SendMode,
    chunk_size: int,
    reads: Seq<Seq<u8>>,
)
    requires
        reads_ok(fresh(path, mode, chunk_size), reads),
    ensures
        ({
            let n = joined(reads).len() as int;
            let list = file_chunks(path, mode, chunk_size, reads);
            &&& joined(list) == wire(mode, joined(reads))
            &&& list.len() == chunk_count(mode, n, at_least_one(chunk_size))
            &&& total_len(list) == sent_len(mode, n)
            &&& forall|i: int| 0 <= i < list.len() ==> (#[trigger] list[i]).len() > 0
        }),
{
    let all = reads.push(seq![]).push(seq![]);
    law_file_is_sent(path, mode, chunk_size, reads);
    lemma_list(fresh(path, mode, chunk_size), all);
    law_sent_len(mode, joined(reads));
}

/// The reads give bytes, no more than wanted at a time.
pub open spec fn reads_ok(v: ChunkView, reads: Seq<Seq<u8>>) -> bool
    decreases reads.len(),
{
    reads.len() > 0 ==> {
        &&& reads_ok(v, reads.drop_last())
        &&& 0 < reads.last().len() <= wanted(run(v, reads.drop_last()))
    }
}

/// The bytes of several pieces, one after the other.
pub open spec fn joined(reads: Seq<Seq<u8>>) -> Seq<u8>
    decreases reads.len(),
{
    if reads.len() == 0 {
        seq![]
    } else {
        joined(reads.drop_last()) + reads.last()
    }
}

proof fn lemma_full_multiple(k: int, c: int)
    requires
        0 <= k,
        1 <= c,
    ensures
        k * c + c == (k + 1) * c,
        k * c / c == k,
        k * c % c == 0,
        0 <= k * c,
{
    vstd::arithmetic::div_mod::lemma_div_multiples_vanish(k, c);
    vstd::arithmetic::div_mod::lemma_mod_multiples_basic(k, c);
    assert(k * c + c == (k + 1) * c && 0 <= k * c && k * c == c * k) by (nonlinear_arith)
        requires
            0 <= k,
            1 <= c,
    ;
}

proof fn lemma_multiple_and_rest(k: int, c: int, b: int)
    requires
        0 <= k,
        0 <= b < c,
    ensures
        (k * c + b) / c == k,
        (k * c + b) % c == b,
{
    vstd::arithmetic::div_mod::lemma_fundamental_div_mod_converse(k * c + b, c, k, b);
}

/// How a cut changes what has been sent.
proof fn lemma_cut(v: ChunkView, read: Seq<u8>)
    requires
        v.state == ChunkState::Reading,
        read.len() > 0 || v.buf.len() > 0,
        read.len() == 0 || v.buf.len() + read.len() >= v.chunk_size,
    ensures
        ({
            let w = stepped(v, Ok(read));
            (ready(v, Ok(read)).len() > 0) == match v.mode {
                SendMode::Text => true,
                SendMode::Base64 => w.taken.len() / 3 > v.taken.len() / 3,
            }
        }),
{
    let w = stepped(v, Ok(read));
    law_emitted_grows(v, Ok(read));
    assert(emitted(w).len() == emitted(v).len() + ready(v, Ok(read)).len());
    let (a, b) = (b64::encoded(groups(v.taken)), b64::encoded(groups(w.taken)));
    assert(groups(v.taken).len() == v.taken.len() / 3 * 3);
    assert(groups(w.taken).len() == w.taken.len() / 3 * 3);
    assert(a.len() == v.taken.len() / 3 * 4);
    assert(b.len() == w.taken.len() / 3 * 4);
}

/// Where the cutting stands after reads that gave bytes.
proof fn lemma_run(path: Seq<char>, mode: SendMode, chunk_size: int, reads: Seq<Seq<u8>>)
    requires
        reads_ok(fresh(path, mode, chunk_size), reads),
    ensures
        ({
            let v = fresh(path, mode, chunk_size);
            let w = run(v, reads);
            let c = v.chunk_size;
            let k = w.taken.len() as int / c;
            &&& w == (ChunkView { taken: w.taken, buf: w.buf, ..v })
            &&& w.taken + w.buf == joined(reads)
            &&& w.buf.len() < c
            &&& w.taken.len() == k * c
            &&& run_bytes(v, reads) == emitted(w)
            &&& run_chunks(v, reads) == full_chunks(mode, k, c)
        }),
    decreases reads.len(),
{
    let v = fresh(path, mode, chunk_size);
    let w = run(v, reads);
    let c = v.chunk_size;
    if reads.len() == 0 {
        assert(groups(v.taken) =~= seq![]);
        assert(emitted(v) =~= seq![]);
        assert(w.taken + w.buf =~= joined(reads));
        lemma_full_multiple(0, c);
    } else {
        let before = reads.drop_last();
        let last = reads.last();
        let u = run(v, before);
        lemma_run(path, mode, chunk_size, before);
        law_emitted_grows(u, Ok(last));
        assert(w.taken + w.buf =~= joined(reads));
        let k = u.taken.len() as int / c;
        if u.buf.len() + last.len() >= c {
            assert(w.taken.len() == k * c + c);
            lemma_full_multiple(k, c);
            lemma_full_multiple(k + 1, c);
            lemma_cut(u, last);
            assert((k + 1) * c / 3 == w.taken.len() as int / 3);
            assert((k + 1 - 1) * c == k * c);
        } else {
            assert(ready(u, Ok(last)) =~= seq![]);
        }
    }
}

/// Whatever the sizes in which a file is read, what is sent is the whole file in its mode, and the
/// number of chunks is the estimated one.
pub proof fn law_file_is_sent(
    path: Seq<char>,
    mode: SendMode,
    chunk_size: int,
    reads: Seq<Seq<u8>>,
)
    requires
        reads_ok(fresh(path, mode, chunk_size), reads),
    ensures
        ({
            let v = fresh(path, mode, chunk_size);
            let all = reads.push(seq![]).push(seq![]);
            &&& run(v, all).state == ChunkState::Finished
            &&& run_bytes(v, all) == wire(mode, joined(reads))
            &&& run_chunks(v, all) == chunk_count(
                mode,
                joined(reads).len() as int,
                at_least_one(chunk_size),
            )
        }),
{
    let v = fresh(path, mode, chunk_size);
    let c = v.chunk_size;
    let none = Seq::<u8>::empty();
    let once = reads.push(none);
    let all = once.push(none);
    lemma_run(path, mode, chunk_size, reads);
    let w = run(v, reads);
    let n = joined(reads).len() as int;
    let k = w.taken.len() as int / c;
    assert(once.drop_last() =~= reads);
    assert(all.drop_last() =~= once);
    let x = stepped(w, Ok(none));
    let y = stepped(x, Ok(none));
    assert(run(v, once) == x);
    assert(run(v, all) == y);
    law_emitted_grows(w, Ok(none));
    law_emitted_grows(x, Ok(none));
    lemma_multiple_and_rest(k, c, w.buf.len() as int);
    assert(n == k * c + w.buf.len());
    if w.buf.len() > 0 {
        lemma_cut(w, none);
        assert(x.taken =~= joined(reads));
        assert(w.taken.len() as int / 3 == n / c * c / 3);
    } else {
        assert(w.taken =~= joined(reads));
        assert(y == x);
        assert(ready(x, Ok(none)) =~= seq![]);
    }
    assert(y.taken =~= joined(reads));
    lemma_end_sends(mode, if w.buf.len() > 0 { x } else { w });
    assert(run_bytes(v, once) == emitted(x));
    assert(run_bytes(v, all) == emitted(y));
    let a: int = if ready(w, Ok(none)).len() > 0 {
        1
    } else {
        0
    };
    let b: int = if ready(x, Ok(none)).len() > 0 {
        1
    } else {
        0
    };
    assert(run_chunks(v, once) == run_chunks(v, reads) + a);
    assert(run_chunks(v, all) == run_chunks(v, once) + b);
    assert(n / c == k && n % c == w.buf.len());
    assert(run(v, all).state == ChunkState::Finished);
    assert(run_bytes(v, all) == wire(mode, joined(reads)));
    assert(run_chunks(v, all) == chunk_count(mode, n, c));
}

/// The piece of a file that its chunk `i` holds in text mode.
pub open spec fn piece(file: Seq<u8>, c: int, i: int) -> Seq<u8> {
    file.subrange(
        i * c,
        if (i + 1) * c < file.len() {
            (i + 1) * c
        } else {
            file.len() as int
        },
    )
}

/// The full chunks that reads of a file have made ready in text mode.
proof fn lemma_full_pieces(path: Seq<char>, chunk_size: int, reads: Seq<Seq<u8>>)
    requires
        reads_ok(fresh(path, SendMode::Text, chunk_size), reads),
    ensures
        ({
            let v = fresh(path, SendMode::Text, chunk_size);
            let c = v.chunk_size;
            let taken = run(v, reads).taken;
            let list = run_list(v, reads);
            &&& list.len() * c == taken.len()
            &&& forall|i: int|
                0 <= i < list.len() ==> (#[trigger] list[i]).len() == c && list[i] == piece(
                    taken,
                    c,
                    i,
                )
        }),
    decreases reads.len(),
{
    let v = fresh(path, SendMode::Text, chunk_size);
    let c = v.chunk_size;
    let list = run_list(v, reads);
    if reads.len() == 0 {
        assert(0 * c == 0);
    } else {
        let before = reads.drop_last();
        let last = reads.last();
        let u = run(v, before);
        let w = run(v, reads);
        let old_list = run_list(v, before);
        lemma_full_pieces(path, chunk_size, before);
        lemma_run(path, SendMode::Text, chunk_size, before);
        let k = old_list.len() as int;
        lemma_full_multiple(k, c);
        if u.buf.len() + last.len() >= c {
            let more = u.buf + last;
            assert(w.taken =~= u.taken + more);
            assert(ready(u, Ok(last)) =~= more);
            assert(list == old_list.push(more));
            assert forall|i: int| 0 <= i < list.len() implies (#[trigger] list[i]).len() == c
                && list[i] == piece(w.taken, c, i) by {
                lemma_full_multiple(i, c);
                if i < k {
                    lemma_steps(i + 1, k, c);
                    assert(old_list[i] == list[i]);
                    assert(piece(u.taken, c, i) =~= piece(w.taken, c, i));
                } else {
                    assert(piece(w.taken, c, k) =~= more);
                }
            }
        } else {
            assert(ready(u, Ok(last)) =~= seq![]);
        }
    }
}

proof fn lemma_steps(i: int, k: int, c: int)
    requires
        i <= k,
        0 <= c,
    ensures
        i * c <= k * c,
{
    assert(i * c <= k * c) by (nonlinear_arith)
        requires
            i <= k,
            0 <= c,
    ;
}

/// In text mode a file is cut every `chunk_size` bytes: its chunks are its pieces of that size, one
/// after the other, and only the last one may be shorter. Then the end is said; at once, if no
/// short piece is left.
pub proof fn law_text_is_cut_by_size(path: Seq<char>, chunk_size: int, reads: Seq<Seq<u8>>)
    requires
        reads_ok(fresh(path, SendMode::Text, chunk_size), reads),
    ensures
        ({
            let v = fresh(path, SendMode::Text, chunk_size);
            let c = at_least_one(chunk_size);
            let file = joined(reads);
            let list = file_chunks(path, SendMode::Text, chunk_size, reads);
            &&& list.len() == (file.len() + c - 1) / c
            &&& forall|i: int|
                0 <= i < list.len() ==> #[trigger] list[i] == piece(file, c, i)
            &&& forall|i: int| 0 <= i < list.len() - 1 ==> (#[trigger] list[i]).len() == c
            &&& list.len() > 0 ==> 0 < list.last().len() <= c
            &&& file.len() as int % c == 0 ==> run(v, reads.push(seq![])).state
                == ChunkState::Finished
            &&& run(v, reads.push(seq![]).push(seq![])).state == ChunkState::Finished
        }),
{
    let v = fresh(path, SendMode::Text, chunk_size);
    let c = v.chunk_size;
    let none = Seq::<u8>::empty();
    let once = reads.push(none);
    let all = once.push(none);
    let file = joined(reads);
    let n = file.len() as int;
    lemma_full_pieces(path, chunk_size, reads);
    lemma_run(path, SendMode::Text, chunk_size, reads);
    law_file_is_sent(path, SendMode::Text, chunk_size, reads);
    let w = run(v, reads);
    let full = run_list(v, reads);
    let k = full.len() as int;
    assert(once.drop_last() =~= reads);
    assert(all.drop_last() =~= once);
    let x = run(v, once);
    assert(x == stepped(w, Ok(none)));
    let b = w.buf.len() as int;
    lemma_full_multiple(k, c);
    lemma_multiple_and_rest(k, c, b);
    assert(w.taken + w.buf == file);
    assert(n == k * c + b);
    assert(ready(x, Ok(none)) =~= none);
    let list = run_list(v, all);
    assert(list == run_list(v, once));
    if b > 0 {
        assert(w.buf + none =~= w.buf);
        assert(ready(w, Ok(none)) =~= w.buf);
        assert(run_list(v, once) == full.push(w.buf));
        assert(list == full.push(w.buf));
        vstd::arithmetic::div_mod::lemma_fundamental_div_mod_converse(n + c - 1, c, k + 1, b - 1);
    } else {
        assert(ready(w, Ok(none)) =~= none);
        assert(run_list(v, once) == full);
        assert(list == full);
        vstd::arithmetic::div_mod::lemma_fundamental_div_mod_converse(n + c - 1, c, k, c - 1);
    }
    assert forall|i: int| 0 <= i < list.len() implies #[trigger] list[i] == piece(file, c, i) by {
        lemma_full_multiple(i, c);
        if i < k {
            lemma_steps(i + 1, k, c);
            assert(list[i] == full[i]);
            assert(piece(w.taken, c, i) =~= piece(file, c, i));
        } else {
            assert(piece(file, c, k) =~= w.buf);
        }
    }
    assert forall|i: int| 0 <= i < list.len() - 1 implies (#[trigger] list[i]).len() == c by {
        assert(list[i] == full[i]);
    }
}

/// Once the end was said, or a failure, the end is said for good, whatever is read: nothing more is
/// sent.
pub proof fn law_end_is_final(v: ChunkView, read: Result<Seq<u8>, Seq<char>>, step: Step)
    requires
        v.state != ChunkState::Reading,
        step_is(v, read, step),
    ensures
        step is End,
        stepped(v, read) == v,
        ready(v, read).len() == 0,
{
}

/// The end of a file sends something exactly in base64, and when the file was not empty.
proof fn lemma_end_sends(mode: SendMode, v: ChunkView)
    requires
        v.mode == mode,
        v.state == ChunkState::Reading,
        v.buf.len() == 0,
    ensures
        (ready(v, Ok(Seq::empty())).len() > 0) == (mode == SendMode::Base64 && v.taken.len() > 0),
{
    law_emitted_grows(v, Ok(Seq::empty()));
    assert(groups(v.taken).len() == v.taken.len() / 3 * 3);
}

/// A line of what base64 mode sends holds at most 76 characters, and every line is ended.
pub proof fn law_lines_fit(file: Seq<u8>)
    ensures
        ({
            let s = wire(SendMode::Base64, file);
            &&& forall|i: int|
                0 <= i < s.len() ==> (#[trigger] s[i] == 10) == (i % (BASE64_LINE_WIDTH + 1)
                    == BASE64_LINE_WIDTH || i == s.len() - 1)
            &&& file.len() > 0 ==> s.len() > 0
        }),
{
    let s = wire(SendMode::Base64, file);
    let e = b64::encoded(file);
    b64::law_encoded_alphabet(file);
    assert forall|i: int| 0 <= i < s.len() implies (#[trigger] s[i] == 10) == (i % 77 == 76 || i
        == s.len() - 1) by {
        if i < s.len() - 1 && i % 77 != 76 {
            assert(e[i - i / 77] != 10);
        }
    }
}

/// What is left of a text without its line breaks.
pub open spec fn unbroken(s: Seq<u8>) -> Seq<u8> {
    s.filter(|b: u8| b != 10)
}

proof fn lemma_unbroken_push(s: Seq<u8>, b: u8)
    ensures
        unbroken(s.push(b)) == if b == 10 {
            unbroken(s)
        } else {
            unbroken(s).push(b)
        },
{
    reveal(Seq::filter);
    assert(s.push(b).drop_last() =~= s);
}

proof fn lemma_unbroken_lines(e: Seq<u8>)
    requires
        forall|i: int| 0 <= i < e.len() ==> #[trigger] e[i] != 10,
    ensures
        unbroken(lines(e)) == e,
    decreases e.len(),
{
    if e.len() == 0 {
        reveal(Seq::filter);
        assert(lines(e) =~= seq![]);
        assert(unbroken(lines(e)) =~= e);
    } else {
        let init = e.drop_last();
        let x = e.last();
        assert(e =~= init.push(x));
        assert forall|i: int| 0 <= i < init.len() implies #[trigger] init[i] != 10 by {
            assert(e[i] != 10);
        }
        lemma_unbroken_lines(init);
        lemma_lines_push(init, x);
        lemma_unbroken_push(lines(init), 10);
        lemma_unbroken_push(lines(init), x);
        lemma_unbroken_push(lines(init).push(10), x);
    }
}

/// The other side gets the file back: without its line breaks, what base64 mode sends is one
/// base64 text, and it decodes to the file.
pub proof fn law_file_comes_back(file: Seq<u8>)
    ensures
        unbroken(wire(SendMode::Base64, file)) == b64::encoded(file),
        b64::decoded(unbroken(wire(SendMode::Base64, file))) == file,
{
    let e = b64::encoded(file);
    b64::law_encoded_alphabet(file);
    lemma_unbroken_lines(e);
    b64::law_decoded_encoded(file);
    if file.len() == 0 {
        assert(e =~= seq![]);
        assert(lines(e) =~= seq![]);
    } else {
        lemma_unbroken_push(lines(e), 10);
    }
}

/// The time of an estimate is what the line needs at the baud rate, ten bits for each byte, in whole
/// milliseconds, and a pause after each chunk.
pub proof fn law_time_is_that_of_the_line(
    mode: SendMode,
    file_size: u64,
    chunk_size: usize,
    gap_ms: u64,
    baudrate: u32,
    e: Estimate,
)
    requires
        estimate_is(mode, file_size, chunk_size, gap_ms, baudrate, e),
    ensures
        ({
            let line = e.est_time_ms - e.est_chunks * gap_ms;
            let b: int = if baudrate == 0 {
                1
            } else {
                baudrate as int
            };
            &&& 0 <= line
            &&& line * b <= e.est_sent_bytes * 10_000 < (line + 1) * b
        }),
        e.file_size == file_size,
        e.chunk_size == chunk_size,
        e.gap_ms == gap_ms,
        e.baudrate == baudrate,
        mode == SendMode::Text ==> e.mode@ == "text"@,
        mode == SendMode::Base64 ==> e.mode@ == "base64"@,
        mode == SendMode::Text ==> e.formula@
            == "text: sent = file_size; time = sent × 10 / baudrate + chunks × gap_ms"@,
        mode == SendMode::Base64 ==> e.formula@
            == "base64: sent = ceil(file_size/3)×4 + 换行数; time = sent × 10 / baudrate + chunks × gap_ms"@,
{
    let b = at_least_one(baudrate as int);
    let bits = e.est_sent_bytes * 10_000;
    let line = e.est_time_ms - e.est_chunks * gap_ms;
    assert(line == bits / b);
    vstd::arithmetic::div_mod::lemma_fundamental_div_mod(bits, b);
    vstd::arithmetic::div_mod::lemma_div_pos_is_pos(bits, b);
    assert(line * b == b * line && (line + 1) * b == b * line + b) by (nonlinear_arith);
}

/// An estimate is made exactly if its numbers fit in 64 bits: the bytes, the chunks, and the time.
pub proof fn law_estimate_is_made_if_it_fits(
    mode: SendMode,
    file_size: u64,
    chunk_size: usize,
    gap_ms: u64,
    baudrate: u32,
)
    ensures
        ({
            let sent = sent_len(mode, file_size as int);
            let chunks = chunk_count(
                mode,
                file_size as int,
                if chunk_size == 0 {
                    1
                } else {
                    chunk_size as int
                },
            );
            let line = sent * 10_000 / if baudrate == 0 {
                1
            } else {
                baudrate as int
            };
            estimate_fits(mode, file_size, chunk_size, gap_ms, baudrate) == (sent <= u64::MAX
                && chunks <= u64::MAX && line + chunks * gap_ms <= u64::MAX)
        }),
{
}

/// In text mode a file is sent as it is. In base64 mode, four symbols stand for three bytes begun,
/// and one line break ends every 76 symbols begun.
pub proof fn law_sizes(file: Seq<u8>)
    ensures
        wire(SendMode::Text, file) == file,
        sent_len(SendMode::Text, file.len() as int) == file.len(),
        ({
            let symbols = b64::encoded(file).len();
            let sent = sent_len(SendMode::Base64, file.len() as int);
            &&& wire(SendMode::Base64, file).len() == sent
            &&& symbols <= sent
            &&& 76 * (sent - symbols) >= symbols
            &&& symbols > 0 ==> 76 * (sent - symbols - 1) < symbols
            &&& symbols == 0 ==> sent == 0
        }),
{
}

/// Base64 keeps up with the file: after every read, all full chunks have been sent, but for the one
/// or two bytes that no group of three holds yet.
pub proof fn law_base64_keeps_up(path: Seq<char>, chunk_size: int, reads: Seq<Seq<u8>>)
    requires
        reads_ok(fresh(path, SendMode::Base64, chunk_size), reads),
        1 <= chunk_size,
    ensures
        ({
            let file = joined(reads);
            let full = file.len() as int / chunk_size * chunk_size;
            joined(run_list(fresh(path, SendMode::Base64, chunk_size), reads)) == lines(
                b64::encoded(file.take(full / 3 * 3)),
            )
        }),
{
    let v = fresh(path, SendMode::Base64, chunk_size);
    let w = run(v, reads);
    let file = joined(reads);
    let k = w.taken.len() as int / chunk_size;
    lemma_run(path, SendMode::Base64, chunk_size, reads);
    lemma_list(v, reads);
    lemma_full_multiple(k, chunk_size);
    assert(file.len() == k * chunk_size + w.buf.len());
    lemma_multiple_and_rest(k, chunk_size, w.buf.len() as int);
    assert(groups(w.taken) =~= file.take(w.taken.len() as int / 3 * 3));
}

/// What a read of the file does. Its bytes join those that wait; they are cut off as a chunk as soon
/// as there are enough, or the file has ended. A read that fails ends the cutting with a message;
/// so does, without one, the end of the file, once nothing waits.
pub proof fn law_reads_are_gathered(v: ChunkView, data: Seq<u8>, e: Seq<char>)
    requires
        v.state == ChunkState::Reading,
    ensures
        stepped(v, Err(e)).state == ChunkState::Failed,
        stepped(v, Ok(data)).taken + stepped(v, Ok(data)).buf == v.taken + v.buf + data,
        data.len() == 0 && v.buf.len() == 0 ==> stepped(v, Ok(data)).state == ChunkState::Finished,
        data.len() > 0 || v.buf.len() > 0 ==> stepped(v, Ok(data)).state == ChunkState::Reading,
        v.buf.len() + data.len() >= v.chunk_size || data.len() == 0 ==> stepped(v, Ok(data)).buf.len()
            == 0,
        0 < data.len() && v.buf.len() + data.len() < v.chunk_size ==> stepped(v, Ok(data)).taken
            == v.taken,
        stepped(v, Ok(data)).mode == v.mode,
        stepped(v, Ok(data)).chunk_size == v.chunk_size,
        stepped(v, Ok(data)).path == v.path,
{
    let w = stepped(v, Ok(data));
    assert(w.taken + w.buf =~= v.taken + v.buf + data);
}

/// What is said after a read of the file: the message of a failure; a chunk, exactly if something
/// has become ready to send, and then all of it; the end, if the file has ended and nothing is left
/// to send; and else to read on.
pub proof fn law_step_after_a_read(
    v: ChunkView,
    data: Seq<u8>,
    e: Seq<char>,
    step: Step,
    failed: Step,
)
    requires
        v.state == ChunkState::Reading,
        step_is(v, Ok(data), step),
        step_is(v, Err(e), failed),
    ensures
        failed matches Step::Failed(m) && m@ == "读取文件失败: "@ + v.path + ": "@ + e,
        !(step is Failed),
        step is Chunk == (ready(v, Ok(data)).len() > 0),
        step matches Step::Chunk(c) ==> c@ == ready(v, Ok(data)),
        step is End == (ready(v, Ok(data)).len() == 0 && data.len() == 0 && v.buf.len() == 0),
{
}

/// The first read of a file asks for a whole chunk, later ones for what it still lacks, and none for
/// more than 4096 bytes. The cutting begins with nothing taken.
pub proof fn law_wants_what_a_chunk_lacks(v: ChunkView, path: Seq<char>, mode: SendMode, c: int)
    ensures
        wanted(v) <= 4096,
        wanted(v) <= v.chunk_size - v.buf.len(),
        wanted(v) == 4096 || wanted(v) == v.chunk_size - v.buf.len(),
        fresh(path, mode, c).taken.len() == 0,
        fresh(path, mode, c).buf.len() == 0,
        fresh(path, mode, c).state == ChunkState::Reading,
        fresh(path, mode, c).mode == mode,
        fresh(path, mode, c).path == path,
        1 <= c ==> fresh(path, mode, c).chunk_size == c,
        c < 1 ==> fresh(path, mode, c).chunk_size == 1,
{
}

/// The modes have their names, and the limits of a transfer their values.
pub proof fn law_modes_and_limits()
    ensures
        mode_name(SendMode::Text) == "text"@,
        mode_name(SendMode::Base64) == "base64"@,
        BASE64_LINE_WIDTH == 76,
        DEFAULT_CHUNK_SIZE == 256,
        MAX_CHUNK_SIZE == 1_048_576,
{
}

}
