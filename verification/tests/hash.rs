//! The two hash functions, on known values.

use cordis::hash::{FnvHasher, TypeIdHasher};

#[test]
fn fnv_of_nothing_is_the_offset_basis() {
    let hasher = FnvHasher::default();
    assert_eq!(hasher.finish(), 0xcbf2_9ce4_8422_2325);
}

#[test]
fn fnv_of_known_words() {
    let mut hasher = FnvHasher::default();
    hasher.write(b"a");
    assert_eq!(hasher.finish(), 0xaf63_dc4c_8601_ec8c);

    let mut hasher = FnvHasher::default();
    hasher.write(b"foo");
    hasher.write(b"bar");
    assert_eq!(hasher.finish(), 0x8594_4171_f739_67e8);
}

#[test]
fn mixing_a_number_multiplies_by_the_seed() {
    let mut hasher = TypeIdHasher::default();
    hasher.mix(1);
    assert_eq!(hasher.finish(), 0x517c_c1b7_2722_0a95);
}

#[test]
fn bytes_are_mixed_eight_at_a_time() {
    let mut hasher = TypeIdHasher::default();
    hasher.write(&[1, 2, 3, 4, 5, 6, 7, 8, 9, 10]);
    assert_eq!(hasher.finish(), 0xba1e_85fc_1f75_e8c4);

    let mut hasher = TypeIdHasher::default();
    hasher.write(&[]);
    assert_eq!(hasher.finish(), 0);
}

#[test]
fn a_wide_number_is_mixed_lower_half_first() {
    let mut hasher = TypeIdHasher::default();
    hasher.write_u128((7 << 64) | 9);
    assert_eq!(hasher.finish(), 0xbb39_cf05_0c33_386c);
}
