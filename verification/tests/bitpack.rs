use rum::bitpack::fitss;
use rum::bitpack::fitsu;
use rum::bitpack::gets;
use rum::bitpack::getu;
use rum::bitpack::news;
use rum::bitpack::newu;

#[test]
fn fitsu_ranges() {
    assert!(fitsu(0, 0));
    assert!(!fitsu(1, 0));
    assert!(fitsu(15, 4));
    assert!(!fitsu(16, 4));
    assert!(fitsu(u64::MAX, 64));
    assert!(fitsu(u64::MAX, 100));
}

#[test]
fn fitss_ranges() {
    assert!(fitss(0, 0));
    assert!(!fitss(1, 0));
    assert!(!fitss(-1, 0));
    assert!(fitss(-1, 1));
    assert!(fitss(0, 1));
    assert!(!fitss(1, 1));
    assert!(fitss(7, 4));
    assert!(!fitss(8, 4));
    assert!(fitss(-8, 4));
    assert!(!fitss(-9, 4));
    assert!(fitss(i64::MIN, 64));
    assert!(fitss(i64::MAX, 64));
    assert!(fitss(i64::MIN, 100));
}

#[test]
fn getu_extracts() {
    assert_eq!(getu(0xABCD_EF01_2345_6789, 16, 32), 0xEF01);
    assert_eq!(getu(0xFF, 0, 3), 0);
    assert_eq!(getu(0x1234_5678_9ABC_DEF0, 64, 0), 0x1234_5678_9ABC_DEF0);
    assert_eq!(getu(0b1011_0100, 4, 2), 0b1101);
}

#[test]
fn gets_sign_extends() {
    assert_eq!(gets(0xF000_0000_0000_0000, 4, 60), -1);
    assert_eq!(gets(0x7000_0000_0000_0000, 4, 60), 7);
    assert_eq!(gets(0b1010, 3, 1), -3);
    assert_eq!(gets(0xFFFF_FFFF_FFFF_FFFF, 64, 0), -1);
    assert_eq!(gets(123, 0, 10), 0);
}

#[test]
fn newu_round_trip() {
    let w = newu(0xAAAA_AAAA_AAAA_AAAA, 8, 16, 0x5C).unwrap();
    assert_eq!(getu(w, 8, 16), 0x5C);
    assert_eq!(getu(w, 16, 0), 0xAAAA);
    assert_eq!(getu(w, 40, 24), 0xAA_AAAA_AAAA);
}

#[test]
fn newu_packing_failure() {
    assert!(newu(0, 4, 0, 16).is_none());
    assert!(newu(0, 0, 10, 1).is_none());
    assert_eq!(newu(0x55, 0, 10, 0), Some(0x55));
}

#[test]
fn news_signed_fields() {
    let w = news(0, 4, 8, -3).unwrap();
    assert_eq!(getu(w, 4, 8), 0xD);
    assert_eq!(gets(w, 4, 8), -3);
    assert!(news(0, 4, 8, 8).is_none());
    assert!(news(0, 4, 8, -9).is_none());
}
