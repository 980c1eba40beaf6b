use dotted_version::Version;

#[test]
fn packs_fields_most_significant_first() {
    assert_eq!(Version::new(2, 33, 5, 14).to_u64(), 0x0002_0021_0005_000E);
    assert_eq!(Version::new(0, 0, 0, 0).to_u64(), 0);
    assert_eq!(Version::new(u16::MAX, u16::MAX, u16::MAX, u16::MAX).to_u64(), u64::MAX);
    assert_eq!(Version::new(1, 0, 0, 0).to_u64(), 1 << 48);
    assert_eq!(Version::new(0, 0, 0, 1).to_u64(), 1);
}

#[test]
fn unpacks_fields_most_significant_first() {
    let v = Version::from_u64(0x0002_0021_0005_000E);
    assert_eq!(v, Version::new(2, 33, 5, 14));
    assert_eq!((v.global, v.major, v.minor, v.patch), (2, 33, 5, 14));
    assert_eq!(Version::from_u64(u64::MAX), Version::new(65535, 65535, 65535, 65535));
    assert_eq!(Version::from_u64(0), Version::new(0, 0, 0, 0));
}

#[test]
fn unpack_after_pack_gives_the_version() {
    for v in [
        Version::new(2, 33, 5, 14),
        Version::new(0, 0, 0, 0),
        Version::new(65535, 0, 65535, 0),
        Version::new(1, 2, 3, 4),
    ] {
        assert_eq!(Version::from_u64(v.to_u64()), v);
    }
}

#[test]
fn pack_after_unpack_gives_the_integer() {
    for x in [0u64, 1, 0xFFFF, 0x1_0000, 0x0123_4567_89AB_CDEF, u64::MAX, 1 << 63] {
        assert_eq!(Version::from_u64(x).to_u64(), x);
    }
}

#[test]
fn order_follows_packed_form() {
    let a = Version::new(2, 32, 65535, 65535);
    let b = Version::new(2, 33, 5, 14);
    assert!(a < b);
    assert!(a.to_u64() < b.to_u64());
    assert!(b > a);
    assert_eq!(a.partial_cmp(&a), Some(std::cmp::Ordering::Equal));
    assert_eq!(b.partial_cmp(&a), Some(std::cmp::Ordering::Greater));
    assert!(Version::new(1, 65535, 65535, 65535) < Version::new(2, 0, 0, 0));
}

#[test]
fn raising_each_field_raises_the_version() {
    let v = Version::new(2, 33, 5, 14);
    assert!(v < Version::new(2, 33, 5, 15));
    assert!(v < Version::new(2, 33, 6, 0));
    assert!(v < Version::new(2, 34, 0, 0));
    assert!(v < Version::new(3, 0, 0, 0));
    assert!(Version::new(2, 33, 5, 65535) < Version::new(2, 33, 6, 0));
}
