use radioxide::codec::{decode_packed, encode_sample, pack_batch};
use radioxide::sample::SCALE;

#[test]
fn token_of_mid_quality_sample() {
    // 0.9876 at quality 3 packs as the token "+987"
    let token = encode_sample(9_876_000, 3);
    assert_eq!(token, b"+987".to_vec());
}

#[test]
fn token_of_mid_quality_sample_decodes() {
    // the token "+987" reads back as 0.987
    let token = encode_sample(9_876_000, 3);
    let decoded = decode_packed(&token);
    assert_eq!(decoded, vec![9_870_000]);
}

#[test]
fn constant_batch_round_trip_stays_close() {
    // a second of the constant 0.12345 at quality 4 decodes to values
    // whose average lies within [0.1230, 0.1240]
    let batch: Vec<i64> = vec![1_234_500; 20];
    let packed = pack_batch(&batch, 4);
    let decoded = decode_packed(&packed);
    assert_eq!(decoded.len(), 20);
    let sum: i64 = decoded.iter().sum();
    let avg = sum / 20;
    assert!(avg >= 1_230_000 && avg <= 1_240_000);
    assert_eq!(decoded[0], 1_234_000);
}

#[test]
fn negative_sample_keeps_its_sign() {
    let token = encode_sample(-5_000_000, 4);
    assert_eq!(token, b"-5000".to_vec());
    let decoded = decode_packed(&token);
    assert_eq!(decoded, vec![-5_000_000]);
}

#[test]
fn zero_encodes_as_positive_zero() {
    let token = encode_sample(0, 3);
    assert_eq!(token, b"+000".to_vec());
    assert_eq!(decode_packed(&token), vec![0]);
}

#[test]
fn full_scale_clamps_below_one() {
    // 1.0 is written as 0.9999999, so the decoded value stays in range
    let token = encode_sample(SCALE, 7);
    assert_eq!(token, b"+9999999".to_vec());
    assert_eq!(decode_packed(&token), vec![9_999_999]);
    let neg = encode_sample(-SCALE, 3);
    assert_eq!(neg, b"-999".to_vec());
}

#[test]
fn quality_seven_is_exact() {
    for s in [0i64, 1, 42, 1_234_567, 9_999_999, -9_999_999, -3] {
        let token = encode_sample(s, 7);
        assert_eq!(decode_packed(&token), vec![s]);
    }
}

#[test]
fn quality_past_seven_adds_nothing() {
    assert_eq!(encode_sample(1_234_567, 9), b"+1234567".to_vec());
}

#[test]
fn round_trip_error_is_bounded() {
    // quality q >= 3 keeps every unit-range sample within 10^(2-q)
    for q in 3u8..=7 {
        let bound = 10_i64.pow(9 - q as u32);
        for s in [0i64, 1, 99_999, 123_456, 5_555_555, 9_999_999, SCALE, -SCALE, -7_654_321] {
            let token = encode_sample(s, q);
            let decoded = decode_packed(&token);
            assert_eq!(decoded.len(), 1);
            assert!((decoded[0] - s).abs() <= bound, "q={} s={} got={}", q, s, decoded[0]);
        }
    }
}

#[test]
fn packed_batch_concatenates_tokens() {
    let batch: Vec<i64> = vec![1_234_500, -9_876_000, 0];
    let packed = pack_batch(&batch, 3);
    assert_eq!(packed, b"+123-987+000".to_vec());
    let decoded = decode_packed(&packed);
    assert_eq!(decoded, vec![1_230_000, -9_870_000, 0]);
}

#[test]
fn stray_bytes_decode_to_zero() {
    // a token with a byte that is no digit reads as 0
    let bytes = b"+12a4-5".to_vec();
    assert_eq!(decode_packed(&bytes), vec![0, -5_000_000]);
}

#[test]
fn empty_tokens_decode_to_zero() {
    let bytes = b"++-".to_vec();
    assert_eq!(decode_packed(&bytes), vec![0, 0, 0]);
}

#[test]
fn leading_junk_is_passed_over() {
    let bytes = b"xy+42".to_vec();
    assert_eq!(decode_packed(&bytes), vec![4_200_000]);
}

#[test]
fn empty_bytes_decode_to_nothing() {
    let bytes: Vec<u8> = Vec::new();
    assert_eq!(decode_packed(&bytes), Vec::<i64>::new());
}

#[test]
fn decoded_scaled_values_match_floats() {
    // the fixed-point units are ten-millionths of full scale
    let token = encode_sample(9_876_000, 3);
    let decoded = decode_packed(&token);
    let as_float = decoded[0] as f32 / SCALE as f32;
    assert!((as_float - 0.987).abs() < 1e-6);
}
