use flexi_logger_datadog::batch::build_batches;
use flexi_logger_datadog::batch::render_line;
use std::io::Read;

#[test]
fn render_appends_newline() {
    let r = render_line(&b"abc".to_vec(), false);
    assert_eq!(r, b"abc\n".to_vec());
}

#[test]
fn render_gzip_round_trips() {
    let r = render_line(&b"this is a test".to_vec(), true);
    assert_ne!(r, b"this is a test\n".to_vec());
    let mut decoder = flate2::read::GzDecoder::new(&r[..]);
    let mut plain = Vec::new();
    decoder.read_to_end(&mut plain).unwrap();
    assert_eq!(plain, b"this is a test\n".to_vec());
}

#[test]
fn gzip_is_deterministic() {
    let a = render_line(&b"same input".to_vec(), true);
    let b = render_line(&b"same input".to_vec(), true);
    assert_eq!(a, b);
}

#[test]
fn one_batch_under_the_cap() {
    let lines = vec![b"a".to_vec(), b"b".to_vec()];
    let batches = build_batches(&lines, false, 100, 100);
    assert_eq!(batches, vec![b"a\nb\n".to_vec()]);
}

#[test]
fn empty_buffer_builds_no_batches() {
    let lines: Vec<Vec<u8>> = Vec::new();
    let batches = build_batches(&lines, false, 100, 100);
    assert!(batches.is_empty());
}

#[test]
fn payload_cap_splits_batches() {
    // The payload cap equals one rendered line, so each line stands alone.
    let lines = vec![
        b"DEBUG [] this is a test 0".to_vec(),
        b"DEBUG [] this is a test 1".to_vec(),
        b"DEBUG [] this is a test 2".to_vec(),
    ];
    let cap = b"DEBUG [] this is a test 0\n".len();
    let batches = build_batches(&lines, false, 1024, cap);
    assert_eq!(
        batches,
        vec![
            b"DEBUG [] this is a test 0\n".to_vec(),
            b"DEBUG [] this is a test 1\n".to_vec(),
            b"DEBUG [] this is a test 2\n".to_vec(),
        ]
    );
}

#[test]
fn oversized_line_is_skipped_not_blocking() {
    let lines = vec![b"ok".to_vec(), vec![b'x'; 50], b"tail".to_vec()];
    let batches = build_batches(&lines, false, 10, 100);
    assert_eq!(batches, vec![b"ok\ntail\n".to_vec()]);
}

#[test]
fn line_cap_over_payload_cap_gets_own_batch() {
    // A render within the line cap but over the payload cap stands in a
    // batch of its own; no empty body is produced around it.
    let lines = vec![b"aa".to_vec(), b"0123456789".to_vec(), b"bb".to_vec()];
    let batches = build_batches(&lines, false, 100, 4);
    assert_eq!(
        batches,
        vec![
            b"aa\n".to_vec(),
            b"0123456789\n".to_vec(),
            b"bb\n".to_vec(),
        ]
    );
    for batch in &batches {
        assert!(!batch.is_empty());
    }
}

#[test]
fn batches_concatenated_reconstruct_lines() {
    let lines = vec![
        b"one".to_vec(),
        b"two".to_vec(),
        b"three".to_vec(),
        b"four".to_vec(),
    ];
    let batches = build_batches(&lines, false, 100, 9);
    let joined: Vec<u8> = batches.concat();
    assert_eq!(joined, b"one\ntwo\nthree\nfour\n".to_vec());
    for batch in &batches {
        assert!(batch.len() <= 9);
    }
}
