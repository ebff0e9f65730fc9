use marker_extract::markers::marker_indices;

// The four index tables the study previously kept by hand, one per
// marker: c580y (bit 2), plas (bit 1), kaf/oz (bit 0), mdr2 (bit 5).
// The computed decomposition must reproduce them exactly.

const C580Y_IDS: [usize; 64] = [
    4, 5, 6, 7, 12, 13, 14, 15, 20, 21, 22, 23, 28, 29, 30, 31, 36, 37, 38, 39, 44, 45, 46, 47,
    52, 53, 54, 55, 60, 61, 62, 63, 68, 69, 70, 71, 76, 77, 78, 79, 84, 85, 86, 87, 92, 93, 94,
    95, 100, 101, 102, 103, 108, 109, 110, 111, 116, 117, 118, 119, 124, 125, 126, 127,
];

const PLAS_IDS: [usize; 64] = [
    2, 3, 6, 7, 10, 11, 14, 15, 18, 19, 22, 23, 26, 27, 30, 31, 34, 35, 38, 39, 42, 43, 46, 47,
    50, 51, 54, 55, 58, 59, 62, 63, 66, 67, 70, 71, 74, 75, 78, 79, 82, 83, 86, 87, 90, 91, 94,
    95, 98, 99, 102, 103, 106, 107, 110, 111, 114, 115, 118, 119, 122, 123, 126, 127,
];

const KAF_OZ_IDS: [usize; 64] = [
    1, 3, 5, 7, 9, 11, 13, 15, 17, 19, 21, 23, 25, 27, 29, 31, 33, 35, 37, 39, 41, 43, 45, 47,
    49, 51, 53, 55, 57, 59, 61, 63, 65, 67, 69, 71, 73, 75, 77, 79, 81, 83, 85, 87, 89, 91, 93,
    95, 97, 99, 101, 103, 105, 107, 109, 111, 113, 115, 117, 119, 121, 123, 125, 127,
];

const MDR2_IDS: [usize; 64] = [
    32, 33, 34, 35, 36, 37, 38, 39, 40, 41, 42, 43, 44, 45, 46, 47, 48, 49, 50, 51, 52, 53, 54,
    55, 56, 57, 58, 59, 60, 61, 62, 63, 96, 97, 98, 99, 100, 101, 102, 103, 104, 105, 106, 107,
    108, 109, 110, 111, 112, 113, 114, 115, 116, 117, 118, 119, 120, 121, 122, 123, 124, 125,
    126, 127,
];

#[test]
fn computed_sets_match_legacy_tables() {
    assert_eq!(marker_indices(2), C580Y_IDS.to_vec());
    assert_eq!(marker_indices(1), PLAS_IDS.to_vec());
    assert_eq!(marker_indices(0), KAF_OZ_IDS.to_vec());
    assert_eq!(marker_indices(5), MDR2_IDS.to_vec());
}

#[test]
fn every_bit_has_half_the_domain() {
    for bit in 0..7u32 {
        let ids = marker_indices(bit);
        assert_eq!(ids.len(), 64);
        for &i in &ids {
            assert!(i < 128);
            assert_eq!((i >> bit) & 1, 1);
        }
        // complement partition: the other 64 indices have the bit clear
        let clear: Vec<usize> = (0..128).filter(|i| (i >> bit) & 1 == 0).collect();
        assert_eq!(clear.len(), 64);
        for &i in &clear {
            assert!(!ids.contains(&i));
        }
    }
}

#[test]
fn index_sets_are_sorted() {
    for bit in 0..7u32 {
        let ids = marker_indices(bit);
        for w in ids.windows(2) {
            assert!(w[0] < w[1]);
        }
    }
}
