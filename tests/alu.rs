use rustyboy::alu::{add, add16, daa, sub, sub16};
use rustyboy::cpu::word;

#[test]
fn test_add() {
    let mut c: bool = false;
    let mut h: bool = true;
    assert_eq!(add(0xa3, 0x12, 0, &mut c, &mut h), 0xb5);
    assert_eq!(c, false);
    assert_eq!(h, false);
    assert_eq!(add(0xa3, 0x12, 1, &mut c, &mut h), 0xb6);
    assert_eq!(c, false);
    assert_eq!(h, false);
    assert_eq!(add(0xa3, 0x1c, 0, &mut c, &mut h), 0xbf);
    assert_eq!(c, false);
    assert_eq!(h, false);
    assert_eq!(add(0xa3, 0x1c, 1, &mut c, &mut h), 0xc0);
    assert_eq!(c, false);
    assert_eq!(h, true);
    assert_eq!(add(0xa3, 0x1d, 0, &mut c, &mut h), 0xc0);
    assert_eq!(c, false);
    assert_eq!(h, true);
    assert_eq!(add(0xe3, 0x1c, 0, &mut c, &mut h), 0xff);
    assert_eq!(c, false);
    assert_eq!(h, false);
    assert_eq!(add(0xe3, 0x1c, 1, &mut c, &mut h), 0x00);
    assert_eq!(c, true);
    assert_eq!(h, true);
    assert_eq!(add(0x64, !1, 1, &mut c, &mut h), 0x63);
    assert_eq!(c, true);
    assert_eq!(h, true);
}

#[test]
fn test_add16() {
    let mut c: bool = false;
    let mut h: bool = true;
    assert_eq!(add16(0xa300, 0x1200, 0, &mut c, &mut h), 0xb500);
    assert_eq!(c, false);
    assert_eq!(h, false);
    assert_eq!(add16(0xa300, 0x1200, 1, &mut c, &mut h), 0xb501);
    assert_eq!(c, false);
    assert_eq!(h, false);
    assert_eq!(add16(0xa300, 0x1c00, 0, &mut c, &mut h), 0xbf00);
    assert_eq!(c, false);
    assert_eq!(h, false);
    assert_eq!(add16(0xa300, 0x1cff, 1, &mut c, &mut h), 0xc000);
    assert_eq!(c, false);
    assert_eq!(h, true);
    assert_eq!(add16(0xa300, 0x1d00, 0, &mut c, &mut h), 0xc000);
    assert_eq!(c, false);
    assert_eq!(h, true);
    assert_eq!(add16(0xe300, 0x1c00, 0, &mut c, &mut h), 0xff00);
    assert_eq!(c, false);
    assert_eq!(h, false);
    assert_eq!(add16(0xe300, 0x1cff, 1, &mut c, &mut h), 0x0000);
    assert_eq!(c, true);
    assert_eq!(h, true);
}

#[test]
fn test_daa() {
    let mut c: bool = false;
    let result = daa(0x00, true, false, true, &mut c);
    assert_eq!(result, 0xfa, "daa 0x00 NH expect 0xfa, is {}.", result);
    assert_eq!(c, false, "daa 0x00 NH expect carry flag reset");
}

#[test]
fn add_flags_follow_the_sums() {
    let mut c = false;
    let mut h = false;
    for a in 0..=255u8 {
        for b in [0u8, 1, 0x0f, 0x10, 0x7f, 0x80, 0xf0, 0xff] {
            for cin in 0..=1u8 {
                let r = add(a, b, cin, &mut c, &mut h);
                let s = a as u32 + b as u32 + cin as u32;
                assert_eq!(r as u32, s % 256);
                assert_eq!(c, s >= 256);
                assert_eq!(h, (a & 0xf) as u32 + (b & 0xf) as u32 + cin as u32 >= 0x10);
            }
        }
    }
}

#[test]
fn sub_borrows() {
    let mut c = false;
    let mut h = false;
    assert_eq!(sub(0x3e, 0x3e, 0, &mut c, &mut h), 0x00);
    assert!(!c);
    assert!(!h);
    assert_eq!(sub(0x10, 0x01, 0, &mut c, &mut h), 0x0f);
    assert!(!c);
    assert!(h);
    assert_eq!(sub(0x00, 0x01, 0, &mut c, &mut h), 0xff);
    assert!(c);
    assert!(h);
    assert_eq!(sub(0x05, 0x04, 1, &mut c, &mut h), 0x00);
    assert!(!c);
    assert_eq!(sub16(0x1000, 0x0001, 0, &mut c, &mut h), 0x0fff);
    assert!(!c);
    assert!(h);
    assert_eq!(sub16(0x0000, 0x0001, 0, &mut c, &mut h), 0xffff);
    assert!(c);
}

#[test]
fn word_joins_bytes() {
    assert_eq!(word(0x12, 0x34), 0x1234);
    assert_eq!(word(0xff, 0x00), 0xff00);
}

#[test]
fn daa_after_bcd_addition_and_subtraction() {
    let bcd = |n: u32| ((n / 10) * 16 + n % 10) as u8;
    for x in 0..100u32 {
        for y in 0..100u32 {
            let (a, b) = (bcd(x), bcd(y));
            let mut c = false;
            let mut h = false;
            let r = add(a, b, 0, &mut c, &mut h);
            let mut c2 = false;
            assert_eq!(daa(r, false, c, h, &mut c2), bcd((x + y) % 100));
            assert_eq!(c2, x + y >= 100);
            let r = sub(a, b, 0, &mut c, &mut h);
            assert_eq!(daa(r, true, c, h, &mut c2), bcd((x + 100 - y) % 100));
            assert_eq!(c2, x < y);
        }
    }
}
