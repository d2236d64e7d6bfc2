use sidecar_supervisor::framing::{line_text, LineFramer, NEWLINE};

fn lines_of(chunks: &[&[u8]]) -> (Vec<Vec<u8>>, Vec<u8>) {
    let mut framer = LineFramer::new();
    let mut lines = Vec::new();
    for chunk in chunks {
        lines.extend(framer.push(chunk));
    }
    (lines, framer.pending().to_vec())
}

#[test]
fn newline_is_line_feed() {
    assert_eq!(NEWLINE, b'\n');
}

#[test]
fn announcement_split_at_every_boundary() {
    let stream = b"ACTUAL_PORT: 54321\n";
    for cut in 0..=stream.len() {
        let (lines, pending) = lines_of(&[&stream[..cut], &stream[cut..]]);
        assert_eq!(lines, vec![b"ACTUAL_PORT: 54321".to_vec()], "cut at {}", cut);
        assert_eq!(pending, Vec::<u8>::new());
    }
}

#[test]
fn announcement_split_at_every_pair_of_boundaries() {
    let stream = b"ACTUAL_PORT: 54321\n";
    for first in 0..=stream.len() {
        for second in first..=stream.len() {
            let (lines, pending) =
                lines_of(&[&stream[..first], &stream[first..second], &stream[second..]]);
            assert_eq!(lines, vec![b"ACTUAL_PORT: 54321".to_vec()]);
            assert_eq!(pending, Vec::<u8>::new());
        }
    }
}

#[test]
fn announcement_in_single_bytes() {
    let stream = b"ACTUAL_PORT: 54321\n";
    let mut framer = LineFramer::new();
    let mut lines = Vec::new();
    for i in 0..stream.len() {
        lines.extend(framer.push(&stream[i..i + 1]));
    }
    assert_eq!(lines, vec![b"ACTUAL_PORT: 54321".to_vec()]);
    assert!(framer.pending().is_empty());
}

#[test]
fn announcement_in_one_chunk() {
    let (lines, pending) = lines_of(&[b"ACTUAL_PORT: 54321\n"]);
    assert_eq!(lines, vec![b"ACTUAL_PORT: 54321".to_vec()]);
    assert!(pending.is_empty());
}

#[test]
fn every_chunking_gives_the_lines_of_the_whole() {
    let stream = b"one\n\ntwo\nthr";
    let whole = lines_of(&[stream]);
    assert_eq!(
        whole,
        (vec![b"one".to_vec(), Vec::new(), b"two".to_vec()], b"thr".to_vec())
    );
    // every subset of the inner boundaries is one way to cut the stream
    let inner = stream.len() - 1;
    for mask in 0u32..(1 << inner) {
        let mut framer = LineFramer::new();
        let mut lines = Vec::new();
        let mut start = 0;
        for i in 0..inner {
            if mask & (1 << i) != 0 {
                lines.extend(framer.push(&stream[start..i + 1]));
                start = i + 1;
            }
        }
        lines.extend(framer.push(&stream[start..]));
        assert_eq!((lines, framer.pending().to_vec()), whole, "mask {}", mask);
    }
}

#[test]
fn several_lines_in_one_chunk_come_in_order() {
    let (lines, pending) = lines_of(&[b"a\nbb\nccc\n"]);
    assert_eq!(lines, vec![b"a".to_vec(), b"bb".to_vec(), b"ccc".to_vec()]);
    assert!(pending.is_empty());
}

#[test]
fn empty_lines_are_lines() {
    let (lines, pending) = lines_of(&[b"\n\n"]);
    assert_eq!(lines, vec![Vec::<u8>::new(), Vec::new()]);
    assert!(pending.is_empty());
}

#[test]
fn empty_chunk_changes_nothing() {
    let mut framer = LineFramer::new();
    assert!(framer.push(b"").is_empty());
    assert!(framer.push(b"ab").is_empty());
    assert!(framer.push(b"").is_empty());
    assert_eq!(framer.pending(), b"ab");
    assert_eq!(framer.push(b"\n"), vec![b"ab".to_vec()]);
}

#[test]
fn fragment_stays_pending_until_its_newline() {
    let mut framer = LineFramer::new();
    assert!(framer.push(b"ACTUAL_").is_empty());
    assert_eq!(framer.pending(), b"ACTUAL_");
    assert!(framer.push(b"PORT: 1").is_empty());
    assert_eq!(framer.pending(), b"ACTUAL_PORT: 1");
    assert_eq!(framer.push(b"2\nrest"), vec![b"ACTUAL_PORT: 12".to_vec()]);
    assert_eq!(framer.pending(), b"rest");
}

#[test]
fn stream_that_ends_inside_a_line_delivers_no_fragment() {
    let mut framer = LineFramer::new();
    assert_eq!(framer.push(b"done\nACTUAL_PORT: 12"), vec![b"done".to_vec()]);
    assert_eq!(framer.finish(), b"ACTUAL_PORT: 12".to_vec());
    assert!(framer.pending().is_empty());
    assert_eq!(framer.push(b"34\n"), vec![b"34".to_vec()]);
}

#[test]
fn finish_of_an_empty_framer() {
    let mut framer = LineFramer::new();
    assert!(framer.finish().is_empty());
    assert!(framer.pending().is_empty());
}

#[test]
fn carriage_return_stays_in_the_line() {
    let (lines, _) = lines_of(&[b"a\r\nb\r\n"]);
    assert_eq!(lines, vec![b"a\r".to_vec(), b"b\r".to_vec()]);
}

#[test]
fn line_text_of_valid_utf8() {
    assert_eq!(line_text(b"ACTUAL_PORT: 54321"), "ACTUAL_PORT: 54321");
    assert_eq!(line_text("żółw 亀".as_bytes()), "żółw 亀");
    assert_eq!(line_text(b""), "");
}

#[test]
fn line_text_replaces_invalid_bytes() {
    assert_eq!(line_text(b"a\xffb"), "a\u{fffd}b");
    assert_eq!(line_text(b"\xc3"), "\u{fffd}");
    assert_eq!(line_text(b"ok \xf0\x9f\x92"), "ok \u{fffd}");
    assert_eq!(line_text(b"\xe4\xba\x80"), "亀");
}

#[test]
fn multibyte_character_cut_by_a_chunk_boundary() {
    let stream = "[INFO] 亀\n".as_bytes();
    for cut in 0..=stream.len() {
        let (lines, _) = lines_of(&[&stream[..cut], &stream[cut..]]);
        assert_eq!(lines.len(), 1);
        assert_eq!(line_text(&lines[0]), "[INFO] 亀");
    }
}
