use rsrs::magic::MagicScanner;
use rsrs::protocol::magic;

fn run(chunks: &[&[u8]]) -> (Vec<u8>, bool, usize) {
    let mut s = MagicScanner::new(magic());
    let mut out = Vec::new();
    let mut used = 0;
    for c in chunks {
        let r = s.feed(c);
        out.extend_from_slice(&r.forward);
        used += r.consumed;
    }
    (out, s.is_found(), used)
}

#[test]
fn marker_is_nineteen_bytes() {
    assert_eq!(magic(), b"\0RSRS\0magic\0number\0".to_vec());
    assert_eq!(magic().len(), 19);
}

#[test]
fn finds_marker_in_one_chunk() {
    let mut input = b"Password: ok\r\n".to_vec();
    input.extend_from_slice(&magic());
    let (out, found, used) = run(&[&input]);
    assert!(found);
    assert_eq!(out, b"Password: ok\r\n".to_vec());
    assert_eq!(used, input.len());
}

#[test]
fn finds_marker_across_every_chunking() {
    let mut input = b"hello \0RS\0RSRS world".to_vec();
    input.extend_from_slice(&magic());
    let expected = b"hello \0RS\0RSRS world".to_vec();
    for size in 1..=input.len() {
        let chunks: Vec<&[u8]> = input.chunks(size).collect();
        let (out, found, used) = run(&chunks);
        assert!(found, "chunk size {}", size);
        assert_eq!(out, expected, "chunk size {}", size);
        assert_eq!(used, input.len());
    }
}

#[test]
fn falsified_prefix_is_forwarded() {
    let mut s = MagicScanner::new(magic());
    let r = s.feed(b"\0RSRS\0mag");
    assert!(r.forward.is_empty());
    assert_eq!(r.consumed, 9);
    let r = s.feed(b"X");
    assert_eq!(r.forward, b"\0RSRS\0magX".to_vec());
    assert!(!s.is_found());
}

#[test]
fn overlapping_restart_keeps_suffix() {
    // "\0RSRS\0" followed by "RSRS\0magic...": the second "\0" restarts the match.
    let mut s = MagicScanner::new(magic());
    let r = s.feed(b"\0RSRS\0\0");
    assert_eq!(r.forward, b"\0RSRS\0".to_vec());
    let r = s.feed(&magic()[1..]);
    assert!(r.forward.is_empty());
    assert!(s.is_found());
}

#[test]
fn absent_marker_never_found() {
    let (out, found, used) = run(&[b"no marker here", b"\0RSRS", b" at all"]);
    assert!(!found);
    assert_eq!(used, 14 + 5 + 7);
    assert_eq!(out, b"no marker here\0RSRS at all".to_vec());
}

#[test]
fn stops_at_marker_and_leaves_rest() {
    let mut input = b"ab".to_vec();
    input.extend_from_slice(&magic());
    input.extend_from_slice(b"protocol");
    let mut s = MagicScanner::new(magic());
    let r = s.feed(&input);
    assert!(s.is_found());
    assert_eq!(r.forward, b"ab".to_vec());
    assert_eq!(r.consumed, 2 + 19);
    assert_eq!(s.want(), 0);
    let r = s.feed(b"more");
    assert_eq!(r.consumed, 0);
}

#[test]
fn want_never_reads_past_marker() {
    let mut s = MagicScanner::new(magic());
    assert_eq!(s.want(), 19);
    s.feed(b"\0RSRS");
    assert_eq!(s.want(), 14);
}
