use radioxide::wire::{decode_wire_message, make_wire_message, organize_tick};

#[test]
fn wire_message_round_trips_through_compression() {
    // streamer side: pack and compress; listener side: decompress and
    // decode — the samples come back quantized to the quality digits
    let batch: Vec<i64> = vec![1_234_500, -9_876_000, 0, 5_000_000];
    let msg = make_wire_message(&batch, 4).expect("a non-empty batch makes a message");
    let decoded = decode_wire_message(&msg).expect("a wire message decodes");
    assert_eq!(decoded, vec![1_234_000, -9_876_000, 0, 5_000_000]);
}

#[test]
fn empty_batches_are_skipped() {
    let batch: Vec<i64> = Vec::new();
    assert!(make_wire_message(&batch, 4).is_none());
}

#[test]
fn a_long_constant_batch_compresses_and_returns() {
    let batch: Vec<i64> = vec![1_234_500; 500];
    let msg = make_wire_message(&batch, 4).expect("a non-empty batch makes a message");
    // the packed form repeats one token, so compression must shrink it
    assert!(msg.len() < 500 * 5);
    let decoded = decode_wire_message(&msg).expect("a wire message decodes");
    assert_eq!(decoded.len(), 500);
    assert!(decoded.iter().all(|&s| s == 1_234_000));
}

#[test]
fn garbage_does_not_decode() {
    let garbage = b"this is not a brotli stream at all".to_vec();
    assert!(decode_wire_message(&garbage).is_none());
}

#[test]
fn quality_trades_size_for_error() {
    let batch: Vec<i64> = (0..100).map(|i| (i * 97_531) % 10_000_000).collect();
    let coarse = make_wire_message(&batch, 2).unwrap();
    let fine = make_wire_message(&batch, 7).unwrap();
    assert!(coarse.len() < fine.len());
    let decoded = decode_wire_message(&fine).unwrap();
    for (d, s) in decoded.iter().zip(batch.iter()) {
        assert_eq!(d, s);
    }
}

#[test]
fn organizer_drains_the_flow_into_one_message() {
    let mut flow: Vec<i64> = vec![1_234_500, 5_000_000];
    let msg = organize_tick(&mut flow, 4).expect("queued samples make a message");
    assert!(flow.is_empty());
    assert_eq!(decode_wire_message(&msg).unwrap(), vec![1_234_000, 5_000_000]);
    // with nothing queued, nothing is sent
    assert!(organize_tick(&mut flow, 4).is_none());
}
