use ser2mcp::ring::{MAX_BUFFER_SIZE, MAX_PATTERN_SIZE, RingBuf};

#[test]
fn basic_push_take() {
    let mut rb = RingBuf::new(8, 0);
    assert_eq!(rb.stats_with_revision(), (0, 0, 0));
    rb.push(b"AB", 0);
    assert_eq!(rb.stats_with_revision(), (2, 0, 1));
    rb.push(b"CD", 0);
    assert_eq!(rb.stats_with_revision(), (4, 0, 2));
    let (data, overflow) = rb.take_all();
    assert_eq!(data, b"ABCD");
    assert_eq!(overflow, 0);
    let (data2, _) = rb.take_all();
    assert!(data2.is_empty());
    assert_eq!(rb.stats_with_revision(), (0, 0, 2));
}

#[test]
fn empty_push_does_not_advance_revision() {
    let mut rb = RingBuf::new(8, 0);
    rb.push(b"", 0);
    assert_eq!(rb.stats_with_revision(), (0, 0, 0));
    assert_eq!(rb.write_position(), 0);
    rb.push(b"x", 0);
    assert_eq!(rb.stats_with_revision(), (1, 0, 1));
    assert_eq!(rb.write_position(), 1);
    rb.clear();
    assert_eq!(rb.stats_with_revision(), (0, 0, 1));
    assert_eq!(rb.write_position(), 1);
}

#[test]
fn wrap_around() {
    let mut rb = RingBuf::new(4, 0);
    rb.push(b"AB", 0);
    rb.push(b"CD", 0);
    rb.push(b"EF", 0);
    let (data, overflow) = rb.take_all();
    assert_eq!(data, b"CDEF");
    assert_eq!(overflow, 2);
}

#[test]
fn overflow_counting() {
    let mut rb = RingBuf::new(4, 0);
    rb.push(b"1234", 0);
    rb.push(b"5678", 0);
    let (data, overflow) = rb.take_all();
    assert_eq!(data, b"5678");
    assert_eq!(overflow, 4);

    rb.push(b"XY", 0);
    let (data2, overflow2) = rb.take_all();
    assert_eq!(data2, b"XY");
    assert_eq!(overflow2, 4);
}

#[test]
fn single_push_larger_than_capacity() {
    let mut rb = RingBuf::new(4, 0);
    rb.push(b"abcdefghij", 0);
    let (data, overflow) = rb.take_all();
    assert_eq!(data, b"ghij");
    assert_eq!(overflow, 6);
}

#[test]
fn stats_and_clear() {
    let mut rb = RingBuf::new(8, 0);
    rb.push(b"hello", 0);
    let (bytes, overflow) = rb.stats();
    assert_eq!(bytes, 5);
    assert_eq!(overflow, 0);
    rb.clear();
    let (bytes, _) = rb.stats();
    assert_eq!(bytes, 0);
    let (data, _) = rb.take_all();
    assert!(data.is_empty());
}

#[test]
fn find_and_take_atomic_consume() {
    let mut rb = RingBuf::new(64, 0);
    rb.push(b"U-Boot 2024.01\nZynq> ", 0);
    let (pos, data, overflow) = rb.find_and_take(b"Zynq> ", true);
    assert_eq!(pos, Some(15));
    assert_eq!(data, b"U-Boot 2024.01\nZynq> ");
    assert_eq!(overflow, 0);
    rb.push(b"version\n", 0);
    let (rest, _) = rb.take_all();
    assert_eq!(rest, b"version\n");
    rb.push(b"Hit any key to stop", 0);
    let (pos2, data2, _) = rb.find_and_take(b"any key", false);
    assert_eq!(pos2, Some(4));
    assert!(data2.is_empty());
    let (rest2, _) = rb.take_all();
    assert_eq!(rest2, b"Hit any key to stop");
    let (pos3, data3, _) = rb.find_and_take(b"Zynq> ", true);
    assert_eq!(pos3, None);
    assert!(data3.is_empty());
    let mut rb2 = RingBuf::new(8, 0);
    rb2.push(b"ABCD", 0);
    rb2.push(b"EFGH", 0);
    rb2.take_prefix(4);
    rb2.push(b"XY", 0);
    let (pos4, data4, _) = rb2.find_and_take(b"GHX", true);
    assert_eq!(pos4, Some(2));
    assert_eq!(data4, b"EFGHX");
    let (rest3, _) = rb2.take_all();
    assert_eq!(rest3, b"Y");
}

#[test]
fn find_basic() {
    let mut rb = RingBuf::new(16, 0);
    assert_eq!(rb.find(b"AB"), None);
    rb.push(b"hello world", 0);
    assert_eq!(rb.find(b"hello"), Some(0));
    assert_eq!(rb.find(b"world"), Some(6));
    assert_eq!(rb.find(b"lo wo"), Some(3));
    assert_eq!(rb.find(b"zzz"), None);
    assert_eq!(rb.find(b"hello world!"), None);
    assert_eq!(rb.find(b""), Some(0));
}

#[test]
fn find_crosses_push_boundary() {
    let mut rb = RingBuf::new(64, 0);
    rb.push(b"Hit any key", 0);
    rb.push(b" to stop autoboot", 0);
    assert_eq!(rb.find(b"key to"), Some(8));
    assert_eq!(rb.find(b"autoboot"), Some(20));
    rb.push(b"\r\nZynq> ", 0);
    assert_eq!(rb.find(b"autoboot\r\nZynq"), Some(20));
}

#[test]
fn find_across_wrap() {
    let mut rb = RingBuf::new(8, 0);
    rb.push(b"ABCD", 0);
    rb.push(b"EFGH", 0);
    rb.take_prefix(4);
    rb.push(b"XY", 0);
    assert_eq!(rb.find(b"EFGH"), Some(0));
    assert_eq!(rb.find(b"XY"), Some(4));
    assert_eq!(rb.find(b"GHX"), Some(2));
    assert_eq!(rb.find(b"AB"), None);
    rb.push(b"Z", 0);
    assert_eq!(rb.find(b"XYZ"), Some(4));
    assert_eq!(rb.find(b"HXY"), Some(3));
}

#[test]
fn find_after_overflow_eviction() {
    let mut rb = RingBuf::new(4, 0);
    rb.push(b"1234", 0);
    rb.push(b"5678", 0);
    assert_eq!(rb.find(b"12"), None);
    assert_eq!(rb.find(b"5678"), Some(0));
}

#[test]
fn find_from_position_ignores_history_and_cross_boundary_match() {
    let mut rb = RingBuf::new(32, 0);
    rb.push(b"OLD-MARK|AB", 0);
    let watermark = rb.write_position();

    let (pos, data, _) = rb.find_and_take_from(b"OLD-MARK", true, Some(watermark));
    assert_eq!(pos, None);
    assert!(data.is_empty());
    rb.push(b"CD|NEW-MARK", 0);
    let (pos, data, _) = rb.find_and_take_from(b"ABCD", true, Some(watermark));
    assert_eq!(pos, None);
    assert!(data.is_empty());

    let (pos, data, _) = rb.find_and_take_from(b"NEW-MARK", true, Some(watermark));
    assert_eq!(pos, Some(14));
    assert_eq!(data, b"OLD-MARK|ABCD|NEW-MARK");
}

#[test]
fn find_from_position_survives_overflow_and_clear() {
    let mut rb = RingBuf::new(8, 0);
    rb.push(b"history", 0);
    let watermark = rb.write_position();
    rb.push(b"xxTARGET", 0);
    let (pos, _, overflow) = rb.find_and_take_from(b"TARGET", false, Some(watermark));
    assert_eq!(pos, Some(2));
    assert_eq!(overflow, 7);

    rb.clear();
    let watermark = rb.write_position();
    rb.push(b"TARGET", 0);
    let (pos, data, _) = rb.find_and_take_from(b"TARGET", true, Some(watermark));
    assert_eq!(pos, Some(0));
    assert_eq!(data, b"TARGET");
}

#[test]
fn find_ignoring_ansi_matches_visible_text_and_preserves_raw_bytes() {
    let mut rb = RingBuf::new(128, 0);
    let raw = b"\x1b[31mAB\x1b[0m\x1b[32mCD\x1b[0m\n";
    rb.push(raw, 0);

    assert_eq!(rb.find(b"ABCD"), None);
    let (pos, data, overflow) = rb.find_and_take_ignoring_ansi(b"ABCD", true, None);
    assert_eq!(pos, Some(5));
    assert_eq!(data, b"\x1b[31mAB\x1b[0m\x1b[32mCD");
    assert_eq!(overflow, 0);
    assert_eq!(rb.take_all().0, b"\x1b[0m\n");
}

#[test]
fn find_ignoring_ansi_skips_osc_and_st_strings() {
    let mut rb = RingBuf::new(256, 0);
    rb.push(b"A\x1b]0;window-title\x07B\x1bPprivate-data\x1b\\C", 0);
    let (pos, data, _) = rb.find_and_take_ignoring_ansi(b"ABC", true, None);
    assert_eq!(pos, Some(0));
    assert_eq!(data, b"A\x1b]0;window-title\x07B\x1bPprivate-data\x1b\\C");
}

#[test]
fn find_ignoring_ansi_across_ring_wrap() {
    let mut rb = RingBuf::new(16, 0);
    rb.push(b"0123456789", 0);
    rb.take_all();
    rb.push(b"\x1b[31mAB\x1b[0mCD", 0);
    let (pos, data, _) = rb.find_and_take_ignoring_ansi(b"ABCD", true, None);
    assert_eq!(pos, Some(5));
    assert_eq!(data, b"\x1b[31mAB\x1b[0mCD");
}

#[test]
fn find_ignoring_ansi_respects_new_data_watermark() {
    let mut rb = RingBuf::new(128, 0);
    rb.push(b"\x1b[31mAB\x1b[0m", 0);
    let watermark = rb.write_position();
    rb.push(b"\x1b[32mCD\x1b[0m", 0);

    let (pos, data, _) = rb.find_and_take_ignoring_ansi(b"ABCD", true, Some(watermark));
    assert_eq!(pos, None);
    assert!(data.is_empty());

    let (pos, data, _) = rb.find_and_take_ignoring_ansi(b"CD", true, Some(watermark));
    assert_eq!(pos, Some(16));
    assert_eq!(data, b"\x1b[31mAB\x1b[0m\x1b[32mCD");
}

#[test]
fn take_prefix_basic() {
    let mut rb = RingBuf::new(16, 0);
    rb.push(b"hello world", 0);
    let (empty, overflow) = rb.take_prefix(0);
    assert!(empty.is_empty());
    assert_eq!(overflow, 0);
    let (data, overflow) = rb.take_prefix(5);
    assert_eq!(data, b"hello");
    assert_eq!(overflow, 0);
    assert_eq!(rb.find(b"world"), Some(1));
    let (rest, _) = rb.take_all();
    assert_eq!(rest, b" world");
    let mut rb2 = RingBuf::new(8, 0);
    rb2.push(b"AB", 0);
    let (all, _) = rb2.take_prefix(100);
    assert_eq!(all, b"AB");
}

#[test]
fn take_prefix_across_wrap() {
    let mut rb = RingBuf::new(8, 0);
    rb.push(b"ABCD", 0);
    rb.push(b"EFGH", 0);
    rb.take_prefix(4);
    rb.push(b"XY", 0);
    let (data, _) = rb.take_prefix(5);
    assert_eq!(data, b"EFGHX");
    let (rest, _) = rb.take_all();
    assert_eq!(rest, b"Y");
    rb.push(b"AB", 0);
    let (all, _) = rb.take_prefix(100);
    assert_eq!(all, b"AB");
}

#[test]
fn capacity_is_held_within_bounds() {
    let mut rb = RingBuf::new(0, 0);
    rb.push(b"AB", 0);
    assert_eq!(rb.take_all(), (b"B".to_vec(), 1));
    let mut rb = RingBuf::new(MAX_BUFFER_SIZE + 1, 0);
    rb.push(&vec![7u8; MAX_BUFFER_SIZE + 1], 0);
    assert_eq!(rb.stats(), (MAX_BUFFER_SIZE, 1));
}

#[test]
fn a_large_push_also_loses_what_was_unread() {
    let mut rb = RingBuf::new(4, 0);
    rb.push(b"123", 0);
    rb.push(b"abcdef", 0);
    assert_eq!(rb.stats(), (4, 5));
    assert_eq!(rb.take_all().0, b"cdef");
}

#[test]
fn pieces_and_whole_leave_the_same() {
    let data: Vec<u8> = (0..100u8).collect();
    for size in 1..20usize {
        let mut whole = RingBuf::new(17, 0);
        whole.push(b"before", 0);
        whole.push(&data, 0);
        let mut pieces = RingBuf::new(17, 0);
        pieces.push(b"before", 0);
        for piece in data.chunks(size) {
            pieces.push(piece, 0);
        }
        assert_eq!(pieces.write_position(), whole.write_position());
        assert_eq!(pieces.take_all(), whole.take_all());
    }
}

#[test]
fn every_byte_is_unread_or_lost() {
    let mut rb = RingBuf::new(10, 0);
    let mut received: u64 = 0;
    let mut taken: u64 = 0;
    for i in 0..50usize {
        let data = vec![i as u8; i % 13];
        rb.push(&data, 0);
        received += data.len() as u64;
        if i % 5 == 0 {
            taken += rb.take_prefix(3).0.len() as u64;
        }
        let (unread, lost) = rb.stats();
        assert_eq!(received, taken + unread as u64 + lost);
    }
}

#[test]
fn what_is_taken_and_what_stays_make_up_the_whole() {
    for n in 0..8usize {
        let mut rb = RingBuf::new(8, 0);
        rb.push(b"xxABCDEF", 0);
        rb.take_prefix(2);
        let mut all = rb.take_prefix(n).0;
        all.extend_from_slice(&rb.take_all().0);
        assert_eq!(all, b"ABCDEF");
    }
}

#[test]
fn age_counts_from_the_last_write() {
    let mut rb = RingBuf::new(8, 100);
    assert_eq!(rb.last_write_age(150), 50);
    rb.push(b"x", 200);
    assert_eq!(rb.last_write_age(230), 30);
    rb.push(b"", 220);
    assert_eq!(rb.last_write_age(230), 30);
    assert_eq!(rb.last_write_age(10), 0);
}

#[test]
fn long_patterns_are_not_looked_for() {
    let mut rb = RingBuf::new(MAX_PATTERN_SIZE + 10, 0);
    rb.push(&vec![1u8; MAX_PATTERN_SIZE + 1], 0);
    assert_eq!(rb.find(&vec![1u8; MAX_PATTERN_SIZE]), Some(0));
    assert_eq!(rb.find(&vec![1u8; MAX_PATTERN_SIZE + 1]), None);
    let (pos, _, _) = rb.find_and_take_ignoring_ansi(&vec![1u8; MAX_PATTERN_SIZE + 1], true, None);
    assert_eq!(pos, None);
}

#[test]
fn repeated_starts_of_a_pattern_are_found() {
    let mut rb = RingBuf::new(64, 0);
    rb.push(b"ababababc ababc", 0);
    assert_eq!(rb.find(b"ababc"), Some(4));
    assert_eq!(rb.find(b"abab"), Some(0));
    assert_eq!(rb.find(b"aabab"), None);
}

#[test]
fn empty_pattern_is_found_at_the_watermark() {
    let mut rb = RingBuf::new(16, 0);
    rb.push(b"abc", 0);
    let mark = rb.write_position();
    rb.push(b"de", 0);
    assert_eq!(rb.find_and_take_from(b"", false, Some(mark)).0, Some(3));
    assert_eq!(rb.find_and_take_ignoring_ansi(b"", false, Some(mark)).0, Some(3));
}

#[test]
fn plain_bytes_match_alike_with_and_without_ansi() {
    let mut rb = RingBuf::new(64, 0);
    rb.push(b"boot ok\r\nlogin: ", 0);
    for pattern in [b"ok".as_slice(), b"login", b"none", b"\r\n"] {
        let plain = rb.find_and_take_from(pattern, false, None).0;
        let visible = rb.find_and_take_ignoring_ansi(pattern, false, None).0;
        assert_eq!(plain, visible);
    }
}

#[test]
fn bare_controls_and_long_escapes_are_invisible() {
    let mut rb = RingBuf::new(128, 0);
    rb.push(b"O\x9b1mK\x84!\x1b(B?\x9dtitle\x9c.\x1b#8,\x1b\x1bc;", 0);
    let (pos, data, _) = rb.find_and_take_ignoring_ansi(b"OK!?.,;", true, None);
    assert_eq!(pos, Some(0));
    assert_eq!(data.last(), Some(&b';'));
    assert!(rb.take_all().0.is_empty());
}

#[test]
fn a_sequence_that_began_before_the_watermark_stays_invisible() {
    let mut rb = RingBuf::new(64, 0);
    rb.push(b"\x1b[3", 0);
    let mark = rb.write_position();
    rb.push(b"1mX1m", 0);
    assert_eq!(rb.find_and_take_ignoring_ansi(b"1m", false, Some(mark)).0, Some(6));
    assert_eq!(rb.find_and_take_from(b"1m", false, Some(mark)).0, Some(3));
}

#[test]
fn a_fresh_buffer_holds_its_capacity() {
    for capacity in [0usize, 1, 5] {
        let data = vec![7u8; capacity.max(1)];
        let mut ring = RingBuf::new(capacity, 0);
        assert_eq!(ring.stats_with_revision(), (0, 0, 0));
        assert_eq!(ring.write_position(), 0);
        ring.push(&data, 1);
        assert_eq!(ring.stats(), (data.len(), 0));
        assert_eq!(ring.take_all(), (data, 0));
    }
}

#[test]
fn the_buffer_stays_bounded_whatever_is_done() {
    let mut ring = RingBuf::new(8, 0);
    for i in 0..200usize {
        match i % 7 {
            0 => ring.clear(),
            1 => {
                let _ = ring.take_prefix(i % 4);
            }
            2 => {
                let _ = ring.find_and_take(&[i as u8 % 5], true);
            }
            3 => {
                let _ = ring.find_and_take_ignoring_ansi(&[i as u8 % 5], true, Some(i as u64));
            }
            _ => ring.push(&vec![i as u8 % 5; i % 11], i as u128),
        }
        assert!(ring.stats().0 <= 8);
    }
}
