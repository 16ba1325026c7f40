//! 8- and 16-bit arithmetic with the carry and half-carry outputs of the LR35902.
use vstd::prelude::*;

verus! {

/// Result byte of an 8-bit addition with carry in.
pub open spec fn add8_value(a: u8, b: u8, c: u8) -> u8 {
    ((a + b + c) % 256) as u8
}

/// Carry out of bit 7 of an 8-bit addition.
pub open spec fn add8_carry(a: u8, b: u8, c: u8) -> bool {
    a + b + c >= 256
}

/// Carry out of bit 3 of an 8-bit addition.
pub open spec fn add8_half(a: u8, b: u8, c: u8) -> bool {
    a % 16 + b % 16 + c >= 16
}

/// Result byte of an 8-bit subtraction with borrow in.
pub open spec fn sub8_value(a: u8, b: u8, c: u8) -> u8 {
    ((a - b - c + 512) % 256) as u8
}

/// Borrow into bit 8 of an 8-bit subtraction.
pub open spec fn sub8_carry(a: u8, b: u8, c: u8) -> bool {
    a < b + c
}

/// Borrow into bit 4 of an 8-bit subtraction.
pub open spec fn sub8_half(a: u8, b: u8, c: u8) -> bool {
    a % 16 < b % 16 + c
}

/// Adds `a`, `b` and the carry `c` (0 or 1); reports the carry out of bit 7
/// and the carry out of bit 3.
pub fn add(a: u8, b: u8, c: u8, cf_out: &mut bool, hf_out: &mut bool) -> (r: u8)
    requires
        c <= 1,
    ensures
        r == add8_value(a, b, c),
        *final(cf_out) == add8_carry(a, b, c),
        *final(hf_out) == add8_half(a, b, c),
{
    *hf_out = (a % 16) + (b % 16) + c >= 16;
    let sum: u16 = (a as u16) + (b as u16) + (c as u16);
    *cf_out = sum >= 256;
    (sum % 256) as u8
}

/// Subtracts `b` and the borrow `c` (0 or 1) from `a`; reports the borrow
/// into bit 8 and the borrow into bit 4.
pub fn sub(a: u8, b: u8, c: u8, cf_out: &mut bool, hf_out: &mut bool) -> (r: u8)
    requires
        c <= 1,
    ensures
        r == sub8_value(a, b, c),
        *final(cf_out) == sub8_carry(a, b, c),
        *final(hf_out) == sub8_half(a, b, c),
{
    let nb: u8 = !b;
    assert(nb == 255 - b && nb % 16 == 15 - b % 16) by (bit_vector)
        requires
            nb == !b,
    ;
    let r = crate::alu::add(a, nb, 1 - c, cf_out, hf_out);
    *cf_out = !*cf_out;
    *hf_out = !*hf_out;
    r
}

/// Result word of a 16-bit addition with carry in.
pub open spec fn add16_value(a: u16, b: u16, c: u8) -> u16 {
    ((a + b + c) % 65536) as u16
}

/// Carry out of bit 15 of a 16-bit addition.
pub open spec fn add16_carry(a: u16, b: u16, c: u8) -> bool {
    a + b + c >= 65536
}

/// Carry out of bit 11 of a 16-bit addition.
pub open spec fn add16_half(a: u16, b: u16, c: u8) -> bool {
    a % 4096 + b % 4096 + c >= 4096
}

/// Adds two words and the carry `c` (0 or 1), as two byte additions; reports
/// the carry out of bit 15 and the carry out of bit 11.
pub fn add16(a: u16, b: u16, c: u8, cf_out: &mut bool, hf_out: &mut bool) -> (r: u16)
    requires
        c <= 1,
    ensures
        r == add16_value(a, b, c),
        *final(cf_out) == add16_carry(a, b, c),
        *final(hf_out) == add16_half(a, b, c),
{
    let ah = (a / 256) as u8;
    let al = (a % 256) as u8;
    let bh = (b / 256) as u8;
    let bl = (b % 256) as u8;
    let rl = crate::alu::add(al, bl, c, cf_out, hf_out);
    let cm: u8 = if *cf_out { 1 } else { 0 };
    let rh = crate::alu::add(ah, bh, cm, cf_out, hf_out);
    proof {
        lemma_split_add16(a, b, c, ah, al, bh, bl, cm, rl, rh);
    }
    crate::cpu::word(rh, rl)
}

proof fn lemma_split_add16(a: u16, b: u16, c: u8, ah: u8, al: u8, bh: u8, bl: u8, cm: u8, rl: u8, rh: u8)
    requires
        c <= 1,
        ah == a / 256,
        al == a % 256,
        bh == b / 256,
        bl == b % 256,
        cm == (if al + bl + c >= 256 { 1int } else { 0int }),
        rl == (al + bl + c) % 256,
        rh == (ah + bh + cm) % 256,
    ensures
        rh * 256 + rl == add16_value(a, b, c),
        (ah + bh + cm >= 256) == add16_carry(a, b, c),
        (ah % 16 + bh % 16 + cm >= 16) == add16_half(a, b, c),
{
    assert(a == ah * 256 + al && b == bh * 256 + bl);
    assert(a % 4096 == (ah % 16) * 256 + al) by {
        assert(a == (ah / 16) * 4096 + ((ah % 16) * 256 + al));
        vstd::arithmetic::div_mod::lemma_fundamental_div_mod_converse(
            a as int,
            4096,
            (ah / 16) as int,
            (ah % 16) * 256 + al,
        );
    }
    assert(b % 4096 == (bh % 16) * 256 + bl) by {
        assert(b == (bh / 16) * 4096 + ((bh % 16) * 256 + bl));
        vstd::arithmetic::div_mod::lemma_fundamental_div_mod_converse(
            b as int,
            4096,
            (bh / 16) as int,
            (bh % 16) * 256 + bl,
        );
    }
    let s: int = a + b + c;
    assert(s == (ah + bh + cm) * 256 + (al + bl + c) % 256);
    assert(s % 65536 == ((ah + bh + cm) % 256) * 256 + rl) by {
        let q: int = (ah + bh + cm) / 256;
        assert(s == q * 65536 + (((ah + bh + cm) % 256) * 256 + rl));
        vstd::arithmetic::div_mod::lemma_fundamental_div_mod_converse(
            s,
            65536,
            q,
            ((ah + bh + cm) % 256) * 256 + rl,
        );
    }
}

/// Subtracts `b` and the borrow `c` (0 or 1) from `a`; reports the borrow
/// into bit 16 and the borrow into bit 12.
pub fn sub16(a: u16, b: u16, c: u8, cf_out: &mut bool, hf_out: &mut bool) -> (r: u16)
    requires
        c <= 1,
    ensures
        r == ((a - b - c + 131072) % 65536) as u16,
        *final(cf_out) == (a < b + c),
        *final(hf_out) == (a % 4096 < b % 4096 + c),
{
    let nb: u16 = !b;
    assert(nb == 65535 - b && nb % 4096 == 4095 - b % 4096) by (bit_vector)
        requires
            nb == !b,
    ;
    let r = crate::alu::add16(a, nb, 1 - c, cf_out, hf_out);
    *cf_out = !*cf_out;
    *hf_out = !*hf_out;
    r
}

/// Decimal adjustment of `a` after a BCD addition (`nf` clear) or subtraction
/// (`nf` set), given the carry and half-carry flags: the adjusted byte and the
/// new carry flag.
pub open spec fn daa_result(a: u8, nf: bool, cf: bool, hf: bool) -> (u8, bool) {
    if nf {
        let t1: int = if hf {
            if cf { a - 6 } else { (a - 6 + 256) % 256 }
        } else {
            a as int
        };
        let t2: int = if cf { t1 - 0x60 } else { t1 };
        (((t2 + 512) % 256) as u8, cf)
    } else {
        let t1: int = if hf || a % 16 > 9 { a + 6 } else { a as int };
        let t2: int = if cf || t1 > 0x9f { t1 + 0x60 } else { t1 };
        ((t2 % 256) as u8, cf || t2 >= 256)
    }
}

/// Decimal adjustment of the accumulator after a BCD addition or subtraction.
pub fn daa(a: u8, nf: bool, cf: bool, hf: bool, cf_out: &mut bool) -> (r: u8)
    ensures
        r == daa_result(a, nf, cf, hf).0,
        *final(cf_out) == daa_result(a, nf, cf, hf).1,
{
    if nf {
        let mut t: u16 = a as u16 + 512;
        if hf {
            t = t - 6;
            if !cf {
                t = t % 256 + 512;
            }
        }
        if cf {
            t = t - 0x60;
        }
        *cf_out = cf;
        (t % 256) as u8
    } else {
        let mut t: u16 = a as u16;
        if hf || a % 16 > 9 {
            t = t + 6;
        }
        if cf || t > 0x9f {
            t = t + 0x60;
        }
        *cf_out = cf || t >= 256;
        (t % 256) as u8
    }
}

/// Whether both nibbles of `a` are decimal digits.
pub open spec fn is_bcd(a: u8) -> bool {
    a / 16 <= 9 && a % 16 <= 9
}

/// The number 0 to 99 that the BCD byte `a` writes.
pub open spec fn bcd_value(a: u8) -> int {
    (a / 16) * 10 + a % 16
}

/// The BCD byte of a number 0 to 99.
pub open spec fn bcd_of(n: int) -> u8 {
    ((n / 10) * 16 + n % 10) as u8
}

/// After the binary addition of two BCD bytes, DAA gives the BCD digits of
/// the decimal sum modulo 100, and sets the carry when the sum reaches 100.
#[verifier::rlimit(100)]
pub proof fn lemma_daa_after_add(a: u8, b: u8)
    requires
        is_bcd(a),
        is_bcd(b),
    ensures
        daa_result(add8_value(a, b, 0), false, add8_carry(a, b, 0), add8_half(a, b, 0)) == (
            bcd_of((bcd_value(a) + bcd_value(b)) % 100),
            bcd_value(a) + bcd_value(b) >= 100,
        ),
{
    let ah = a / 16;
    let al = a % 16;
    let bh = b / 16;
    let bl = b % 16;
    assert(a == ah * 16 + al && b == bh * 16 + bl);
    let s: int = a + b;
    let r = add8_value(a, b, 0);
    let sum = bcd_value(a) + bcd_value(b);
    if al + bl >= 10 {
        if ah + bh + 1 >= 10 {
            assert(sum >= 100 && sum % 100 == sum - 100);
            assert((sum - 100) / 10 == ah + bh + 1 - 10 && (sum - 100) % 10 == al + bl - 10);
        } else {
            assert(sum < 100 && sum % 100 == sum);
            assert(sum / 10 == ah + bh + 1 && sum % 10 == al + bl - 10);
        }
    } else {
        if ah + bh >= 10 {
            assert(sum >= 100 && sum % 100 == sum - 100);
            assert((sum - 100) / 10 == ah + bh - 10 && (sum - 100) % 10 == al + bl);
        } else {
            assert(sum < 100 && sum % 100 == sum);
            assert(sum / 10 == ah + bh && sum % 10 == al + bl);
        }
    }
    if s >= 256 {
        assert(r == s - 256);
    } else {
        assert(r == s);
    }
}

/// After the binary subtraction of two BCD bytes, DAA gives the BCD digits
/// of the decimal difference modulo 100, and keeps the borrow as the carry.
#[verifier::rlimit(100)]
pub proof fn lemma_daa_after_sub(a: u8, b: u8)
    requires
        is_bcd(a),
        is_bcd(b),
    ensures
        daa_result(sub8_value(a, b, 0), true, sub8_carry(a, b, 0), sub8_half(a, b, 0)) == (
            bcd_of((bcd_value(a) - bcd_value(b) + 100) % 100),
            bcd_value(a) < bcd_value(b),
        ),
{
    let ah = a / 16;
    let al = a % 16;
    let bh = b / 16;
    let bl = b % 16;
    assert(a == ah * 16 + al && b == bh * 16 + bl);
    let d = bcd_value(a) - bcd_value(b);
    let r = sub8_value(a, b, 0);
    if al < bl {
        if ah - 1 < bh {
            assert(d < 0 && (d + 100) % 100 == d + 100);
            assert((d + 100) / 10 == ah - bh - 1 + 10 && (d + 100) % 10 == al - bl + 10);
        } else {
            assert(d >= 0 && (d + 100) % 100 == d);
            assert(d / 10 == ah - bh - 1 && d % 10 == al - bl + 10);
        }
    } else {
        if ah < bh {
            assert(d < 0 && (d + 100) % 100 == d + 100);
            assert((d + 100) / 10 == ah - bh + 10 && (d + 100) % 10 == al - bl);
        } else {
            assert(d >= 0 && (d + 100) % 100 == d);
            assert(d / 10 == ah - bh && d % 10 == al - bl);
        }
    }
    if a >= b {
        assert(r == a - b);
    } else {
        assert(r == a - b + 256);
    }
}

} // verus!
