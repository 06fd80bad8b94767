use ipu_codegen::exchange_grouping::strided_overlap;
use ipu_codegen::tensor::ByteSpan;

#[test]
fn affine_overlap_matches_explicit_rows() {
    let mut random = fastrand::Rng::with_seed(1729);
    for _ in 0..10_000 {
        let offset = random.u32(0..64);
        let rows = random.u32(0..16);
        let bytes = random.u32(0..32);
        let stride = random.u32(0..64);
        let span = ByteSpan {
            offset: random.u32(0..1024),
            bytes: random.u32(0..128),
        };
        let expected = bytes != 0
            && span.bytes != 0
            && (0..rows).any(|row| {
                let at = offset + row * stride;
                at < span.offset + span.bytes && span.offset < at + bytes
            });
        assert_eq!(strided_overlap(offset, rows, bytes, stride, span), expected);
    }
}

#[test]
fn rows_past_the_last_byte_do_not_wrap() {
    let span = ByteSpan { offset: 0, bytes: 8 };
    assert!(!strided_overlap(u32::MAX - 3, 4, 8, u32::MAX, span));
    let far = ByteSpan { offset: u32::MAX - 3, bytes: 3 };
    assert!(strided_overlap(u32::MAX - 1, 1, 1, 0, far));
}
