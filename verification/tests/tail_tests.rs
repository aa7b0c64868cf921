use runit_ui::tail::{tail_bytes, TailScanner, CHUNK_SIZE};

/// Straightforward reference: read everything, split, slice.
fn reference_tail(content: &[u8], n: usize) -> Vec<Vec<u8>> {
    let mut lines: Vec<Vec<u8>> = Vec::new();
    let mut cur: Vec<u8> = Vec::new();
    for &b in content {
        if b == b'\n' {
            lines.push(cur);
            cur = Vec::new();
        } else {
            cur.push(b);
        }
    }
    if !cur.is_empty() {
        lines.push(cur);
    }
    let keep = n.min(lines.len());
    lines[lines.len() - keep..].to_vec()
}

fn check_against_reference(content: &[u8], n: usize) {
    let got = tail_bytes(&content.to_vec(), n);
    let want = reference_tail(content, n);
    assert_eq!(got, want, "tail of {} bytes with n={}", content.len(), n);
}

#[test]
fn matches_reference_on_small_files() {
    let files: Vec<&[u8]> = vec![
        b"",
        b"\n",
        b"\n\n\n",
        b"one line no newline",
        b"one line\n",
        b"a\nb\nc\n",
        b"a\nb\nc",
        b"\na\n\nb\n",
        b"line with spaces and: punctuation!\nsecond\nthird",
    ];
    for content in files {
        for n in 0..6 {
            check_against_reference(content, n);
        }
    }
}

#[test]
fn matches_reference_across_chunk_boundaries() {
    // build a file a good deal larger than one chunk, with varied line lengths
    let mut content: Vec<u8> = Vec::new();
    let mut i: usize = 0;
    while content.len() < 3 * CHUNK_SIZE + 17 {
        for _ in 0..(i % 97) {
            content.push(b'a' + (i % 23) as u8);
        }
        content.push(b'\n');
        i += 1;
    }
    // and one unterminated trailing line
    content.extend_from_slice(b"trailing");
    for n in [0, 1, 2, 3, 50, 120, 100000] {
        check_against_reference(&content, n);
    }
    // the same file terminated
    let mut terminated = content.clone();
    terminated.push(b'\n');
    for n in [0, 1, 2, 3, 50, 120, 100000] {
        check_against_reference(&terminated, n);
    }
}

#[test]
fn line_exactly_on_chunk_boundary() {
    let mut content: Vec<u8> = vec![b'x'; CHUNK_SIZE - 1];
    content.push(b'\n');
    content.extend_from_slice(b"last\n");
    for n in 0..4 {
        check_against_reference(&content, n);
    }
}

#[test]
fn zero_lines_reads_nothing() {
    let sc = TailScanner::new(100000, 0);
    assert!(sc.next_request().is_none());
    let out = sc.finish();
    assert!(out.is_empty());
    assert!(tail_bytes(&b"a\nb\nc\n".to_vec(), 0).is_empty());
}

#[test]
fn empty_file_yields_no_lines() {
    for n in [0, 1, 5, 1000] {
        assert!(tail_bytes(&Vec::new(), n).is_empty());
    }
    let sc = TailScanner::new(0, 7);
    assert!(sc.next_request().is_none());
    assert!(sc.finish().is_empty());
}

#[test]
fn scanner_asks_for_backward_chunks() {
    let mut sc = TailScanner::new(2 * CHUNK_SIZE + 10, 1000000);
    let (p, l) = sc.next_request().expect("a first chunk is needed");
    assert_eq!((p, l), (CHUNK_SIZE + 10, CHUNK_SIZE));
    sc.feed(vec![b'x'; l]);
    let (p, l) = sc.next_request().expect("a second chunk is needed");
    assert_eq!((p, l), (10, CHUNK_SIZE));
    sc.feed(vec![b'x'; l]);
    let (p, l) = sc.next_request().expect("the clamped final chunk");
    assert_eq!((p, l), (0, 10));
    sc.feed(vec![b'x'; l]);
    assert!(sc.next_request().is_none());
}

#[test]
fn scanner_stops_once_enough_lines_are_closed() {
    // plenty of newlines in the final chunk: one read suffices
    let mut sc = TailScanner::new(10 * CHUNK_SIZE, 3);
    let (p, l) = sc.next_request().expect("a first chunk is needed");
    assert_eq!((p, l), (9 * CHUNK_SIZE, CHUNK_SIZE));
    let mut chunk = vec![b'\n'; l];
    chunk[l - 1] = b'z';
    sc.feed(chunk);
    assert!(sc.next_request().is_none());
}

#[test]
fn tail_is_exact_not_approximate() {
    let content = b"first\nsecond\nthird\nfourth\nfifth\n".to_vec();
    let got = tail_bytes(&content, 2);
    assert_eq!(got, vec![b"fourth".to_vec(), b"fifth".to_vec()]);
    let got = tail_bytes(&content, 5);
    assert_eq!(got.len(), 5);
    assert_eq!(got[0], b"first".to_vec());
    let got = tail_bytes(&content, 9);
    assert_eq!(got.len(), 5);
}
