use base64::Engine;
use base64::engine::general_purpose::STANDARD;
use ser2mcp::sendfile::{
    BASE64_LINE_WIDTH, ChunkIter, SendMode, Step, checked_estimate, estimate,
};

/// Cuts data that come in reads of at most `read_size` bytes.
fn chunks_in_reads(
    data: &[u8],
    mode: SendMode,
    chunk_size: usize,
    read_size: usize,
) -> Vec<Vec<u8>> {
    let mut iter = ChunkIter::new("test.bin", mode, chunk_size);
    let mut out = Vec::new();
    let mut at = 0;
    loop {
        let n = iter.want().min(read_size).min(data.len() - at);
        let read = data[at..at + n].to_vec();
        at += n;
        match iter.next(Ok(read)) {
            Step::Read => {}
            Step::Chunk(c) => out.push(c),
            Step::End => return out,
            Step::Failed(e) => panic!("{e}"),
        }
    }
}

fn chunks_of(data: &[u8], mode: SendMode, chunk_size: usize) -> Vec<Vec<u8>> {
    chunks_in_reads(data, mode, chunk_size, usize::MAX)
}

#[test]
fn text_chunks_split_by_size() {
    let data: Vec<u8> = (0..1000u32).map(|i| (i % 251) as u8).collect();
    let chunks = chunks_of(&data, SendMode::Text, 256);
    assert_eq!(chunks.len(), 4);
    assert_eq!(chunks[0].len(), 256);
    assert_eq!(chunks[3].len(), 1000 - 3 * 256);
    let joined: Vec<u8> = chunks.into_iter().flatten().collect();
    assert_eq!(joined, data);
}

#[test]
fn base64_roundtrip_with_newlines() {
    let data: Vec<u8> = (0..500u32).map(|i| (i % 251) as u8).collect();
    let out: Vec<u8> = chunks_of(&data, SendMode::Base64, 57)
        .into_iter()
        .flatten()
        .collect();
    let s = String::from_utf8(out.clone()).unwrap();
    assert!(s.ends_with('\n'));
    for line in s.lines() {
        assert!(line.len() <= BASE64_LINE_WIDTH);
    }
    let stripped: Vec<u8> = out.into_iter().filter(|&b| b != b'\n').collect();
    let decoded = STANDARD.decode(stripped).unwrap();
    assert_eq!(decoded, data);
}

#[test]
fn base64_roundtrip_with_non_multiple_of_three_chunks() {
    let data: Vec<u8> = (0..1024u32).map(|i| (i % 251) as u8).collect();
    let out: Vec<u8> = chunks_of(&data, SendMode::Base64, 256)
        .into_iter()
        .flatten()
        .collect();
    assert!(out.ends_with(b"\n"));
    let stripped: Vec<u8> = out.into_iter().filter(|&b| b != b'\n').collect();
    let decoded = STANDARD.decode(stripped).unwrap();
    assert_eq!(decoded, data);
}

#[test]
fn base64_line_width_respected_across_chunks() {
    let data = vec![0x41u8; 76];
    let chunks = chunks_of(&data, SendMode::Base64, 76);
    assert_eq!(chunks.len(), 2);
    let out: Vec<u8> = chunks.into_iter().flatten().collect();
    let s = String::from_utf8(out).unwrap();
    assert!(s.ends_with('\n'));
    assert_eq!(s.matches('\n').count(), 2);
    let stripped: Vec<u8> = s.bytes().filter(|&b| b != b'\n').collect();
    let decoded = STANDARD.decode(stripped).unwrap();
    assert_eq!(decoded, data);
}

#[test]
fn empty_file_produces_nothing() {
    assert_eq!(chunks_of(b"", SendMode::Base64, 256).len(), 0);
    assert_eq!(chunks_of(b"", SendMode::Text, 256).len(), 0);
}

#[test]
fn estimate_formula_sane() {
    let e = estimate(SendMode::Text, 1152, 256, 0, 115200);
    assert_eq!(e.est_sent_bytes, 1152);
    assert_eq!(e.est_chunks, 5);
    assert_eq!(e.est_time_ms, 100);
    let e = estimate(SendMode::Base64, 3, 256, 0, 115200);
    assert_eq!(e.est_sent_bytes, 5);
    assert_eq!(e.est_time_ms, 0);
}

#[test]
fn base64_text_is_exact() {
    let out: Vec<u8> = chunks_of(b"any carnal pleas", SendMode::Base64, 5)
        .into_iter()
        .flatten()
        .collect();
    assert_eq!(out, b"YW55IGNhcm5hbCBwbGVhcw==\n");
    let out: Vec<u8> = chunks_of(&[0xFB, 0xEF, 0xFF], SendMode::Base64, 2)
        .into_iter()
        .flatten()
        .collect();
    assert_eq!(out, b"++//\n");
}

#[test]
fn padding_comes_only_at_the_end() {
    for n in 1..40usize {
        for chunk in 1..9usize {
            let data: Vec<u8> = (0..n).map(|i| (i * 37) as u8).collect();
            let out: Vec<u8> = chunks_of(&data, SendMode::Base64, chunk)
                .into_iter()
                .flatten()
                .collect();
            let mut expected = STANDARD.encode(&data).into_bytes();
            expected.push(b'\n');
            assert_eq!(out, expected);
        }
    }
}

#[test]
fn a_full_last_line_is_ended_once() {
    let out: Vec<u8> = chunks_of(&[0u8; 57], SendMode::Base64, 256)
        .into_iter()
        .flatten()
        .collect();
    assert_eq!(out.len(), 77);
    assert_eq!(out[76], b'\n');
    let out: Vec<u8> = chunks_of(&[0u8; 58], SendMode::Base64, 256)
        .into_iter()
        .flatten()
        .collect();
    assert_eq!(out.len(), 76 + 1 + 4 + 1);
    assert_eq!(out[76], b'\n');
    assert_eq!(out[81], b'\n');
}

#[test]
fn the_estimate_is_what_is_sent() {
    for n in 0..200usize {
        for chunk in [1usize, 2, 3, 4, 5, 57, 64, 76, 256] {
            for mode in [SendMode::Text, SendMode::Base64] {
                let data: Vec<u8> = (0..n).map(|i| i as u8).collect();
                let chunks = chunks_of(&data, mode, chunk);
                let sent: usize = chunks.iter().map(|c| c.len()).sum();
                let e = estimate(mode, n as u64, chunk, 0, 9600);
                assert_eq!(e.est_chunks, chunks.len() as u64);
                assert_eq!(e.est_sent_bytes, sent as u64);
            }
        }
    }
}

#[test]
fn the_size_of_reads_does_not_matter() {
    let data: Vec<u8> = (0..10_000u32).map(|i| (i % 251) as u8).collect();
    for mode in [SendMode::Text, SendMode::Base64] {
        let whole = chunks_of(&data, mode, 5000);
        for read_size in [1usize, 7, 4095, 4096] {
            assert_eq!(chunks_in_reads(&data, mode, 5000, read_size), whole);
        }
    }
}

#[test]
fn a_read_never_asks_for_more_than_a_chunk() {
    let mut iter = ChunkIter::new("test.bin", SendMode::Text, 10);
    assert_eq!(iter.want(), 10);
    assert!(matches!(iter.next(Ok(vec![1, 2, 3])), Step::Read));
    assert_eq!(iter.want(), 7);
    let iter = ChunkIter::new("test.bin", SendMode::Text, 100_000);
    assert_eq!(iter.want(), 4096);
    let iter = ChunkIter::new("test.bin", SendMode::Text, 0);
    assert_eq!(iter.want(), 1);
}

#[test]
fn a_file_that_cannot_be_read_ends_the_cutting() {
    let mut iter = ChunkIter::new("fw.bin", SendMode::Text, 4);
    assert!(matches!(iter.next(Ok(vec![1, 2])), Step::Read));
    match iter.next(Err("I/O error".to_string())) {
        Step::Failed(e) => assert_eq!(e, "读取文件失败: fw.bin: I/O error"),
        other => panic!("{other:?}"),
    }
    assert!(matches!(iter.next(Ok(vec![3, 4])), Step::End));
}

#[test]
fn nothing_comes_after_the_end() {
    let mut iter = ChunkIter::new("fw.bin", SendMode::Base64, 4);
    assert!(matches!(iter.next(Ok(vec![])), Step::End));
    assert!(matches!(iter.next(Ok(vec![1, 2, 3, 4])), Step::End));
}

#[test]
fn modes_have_names() {
    assert_eq!(SendMode::parse("TEXT").unwrap(), SendMode::Text);
    assert_eq!(SendMode::parse("Base64").unwrap(), SendMode::Base64);
    assert_eq!(
        SendMode::parse("HEX").unwrap_err(),
        "mode 必须是 text 或 base64，收到 \"hex\""
    );
    assert_eq!(SendMode::Text.as_str(), "text");
    assert_eq!(SendMode::Base64.as_str(), "base64");
}

#[test]
fn estimate_counts_gaps_and_lines() {
    let e = estimate(SendMode::Base64, 34, 64, 1000, 115200);
    assert_eq!(e.est_chunks, 2);
    assert_eq!(e.est_sent_bytes, 49);
    assert_eq!(e.est_time_ms, 2004);
    assert_eq!(e.mode, "base64");
    assert_eq!(
        e.formula,
        "base64: sent = ceil(file_size/3)×4 + 换行数; time = sent × 10 / baudrate + chunks × gap_ms"
    );
    let e = estimate(SendMode::Text, 10, 0, 5, 0);
    assert_eq!((e.est_chunks, e.est_time_ms), (10, 100_050));
    assert_eq!(
        e.formula,
        "text: sent = file_size; time = sent × 10 / baudrate + chunks × gap_ms"
    );
}

#[test]
fn estimates_that_do_not_fit_are_told_apart() {
    assert!(checked_estimate(SendMode::Text, u64::MAX, 1, 2, 115200).is_none());
    assert!(checked_estimate(SendMode::Base64, u64::MAX, 1, 0, 115200).is_none());
    assert!(checked_estimate(SendMode::Text, u64::MAX, 1, 0, u32::MAX).is_some());
    assert!(checked_estimate(SendMode::Text, u64::MAX, 1, u64::MAX, u32::MAX).is_none());
}

#[test]
fn text_is_cut_every_chunk_size_bytes() {
    for n in 0..30usize {
        for size in 0..8usize {
            let data: Vec<u8> = (0..n).map(|i| i as u8).collect();
            let expected: Vec<Vec<u8>> = data.chunks(size.max(1)).map(|c| c.to_vec()).collect();
            assert_eq!(chunks_of(&data, SendMode::Text, size), expected);
        }
    }
}
