//! The divider and the programmable timer (DIV, TIMA, TMA, TAC).
use vstd::prelude::*;
use vstd::arithmetic::div_mod::*;

verus! {

/// Timer registers: the 16-bit divider counter (its high byte is DIV), the
/// counter TIMA, its reload value TMA and the control register TAC.
#[derive(Clone, Copy, Debug, PartialEq, Eq, Structural)]
pub struct Timer {
    pub div: u16,
    pub tac: u8,
    pub tma: u8,
    pub tima: u8,
}

/// The number of divider increments per TIMA increment that TAC selects.
pub open spec fn timer_period(tac: u8) -> int {
    let sel = tac % 4;
    if sel == 1 {
        16
    } else if sel == 2 {
        64
    } else if sel == 3 {
        256
    } else {
        1024
    }
}

/// TIMA after `k` increments, reloading from TMA on each overflow, and
/// whether any overflow happened.
pub open spec fn tima_after(tima: u8, tma: u8, k: nat) -> (u8, bool)
    decreases k,
{
    if k == 0 {
        (tima, false)
    } else {
        let (v, irq) = tima_after(tima, tma, (k - 1) as nat);
        if v == 255 {
            (tma, true)
        } else {
            ((v + 1) as u8, irq)
        }
    }
}

/// The number of falling edges of the selected divider bit while the divider
/// counts `n` times from `div`: the multiples of the period that it reaches.
pub open spec fn timer_edges(div: u16, n: nat, period: int) -> nat {
    (((div as int) % period + n) / period) as nat
}

impl Timer {
    /// Whether TAC enables TIMA.
    pub open spec fn enabled(self) -> bool {
        self.tac % 8 >= 4
    }

    /// The timer after `n` cycles, and whether it requested an interrupt.
    pub open spec fn ticked(self, n: nat) -> (Timer, bool) {
        let div = ((self.div + n) % 65536) as u16;
        if self.enabled() {
            let (tima, irq) = tima_after(
                self.tima,
                self.tma,
                timer_edges(self.div, n, timer_period(self.tac)),
            );
            (Timer { div, tima, ..self }, irq)
        } else {
            (Timer { div, ..self }, false)
        }
    }

    /// A timer with every register zero.
    pub fn new() -> (r: Timer)
        ensures
            r == (Timer { div: 0, tac: 0, tma: 0, tima: 0 }),
    {
        Timer { div: 0, tac: 0, tma: 0, tima: 0 }
    }

    /// Advances the timer by `cycles`; returns whether TIMA overflowed, which
    /// requests the timer interrupt.
    pub fn tick(&mut self, cycles: isize) -> (interrupt: bool)
        requires
            cycles >= 0,
        ensures
            (*final(self), interrupt) == old(self).ticked(cycles as nat),
    {
        let mut interrupt = false;
        proof {
            lemma_tac_bits(self.tac);
        }
        if self.tac & 0x04 == 0 {
            self.div = ((self.div as u64 + cycles as u64) % 65536) as u16;
        } else {
            let freq: u16 = match self.tac & 0x03 {
                1 => 16,
                2 => 64,
                3 => 256,
                _ => 1024,
            };
            let ghost t0 = *old(self);
            let ghost d = freq as int;
            let mut i: isize = 0;
            while i < cycles
                invariant
                    0 <= i <= cycles,
                    d == timer_period(t0.tac),
                    freq == d,
                    self.tac == t0.tac,
                    self.tma == t0.tma,
                    self.div == (t0.div + i) % 65536,
                    (self.tima, interrupt) == tima_after(
                        t0.tima,
                        t0.tma,
                        timer_edges(t0.div, i as nat, d),
                    ),
                decreases cycles - i,
            {
                let old_div = self.div;
                let old_bit = self.div & (freq >> 1);
                self.div = self.div.wrapping_add(1);
                let new_bit = self.div & (freq >> 1);
                proof {
                    lemma_falling_edge(old_div, freq);
                    lemma_edge_count(t0.div as int, i as int, d);
                }
                if old_bit != 0 && new_bit == 0 {
                    if self.tima == 0xff {
                        self.tima = self.tma;
                        interrupt = true;
                    } else {
                        self.tima = self.tima + 1;
                    }
                }
                i = i + 1;
            }
        }
        interrupt
    }
}

proof fn lemma_tac_bits(tac: u8)
    by (bit_vector)
    ensures
        (tac & 0x04 == 0) <==> tac % 8 < 4,
        tac & 0x03 == tac % 4,
{
}

/// The selected divider bit falls exactly when the counter reaches a multiple
/// of the period.
proof fn lemma_falling_edge(x: u16, freq: u16)
    requires
        freq == 16 || freq == 64 || freq == 256 || freq == 1024,
    ensures
        ((x & (freq >> 1)) != 0 && (x.wrapping_add(1) & (freq >> 1)) == 0) <==> (x + 1) % (freq as int) == 0,
{
    let y = x.wrapping_add(1);
    assert(y == (x + 1) % 65536);
    if freq == 16 {
        assert(((x & (16u16 >> 1)) != 0 && (y & (16u16 >> 1)) == 0) <==> (x + 1) % 16 == 0) by (bit_vector)
            requires
                y == (x + 1) % 65536,
        ;
    } else if freq == 64 {
        assert(((x & (64u16 >> 1)) != 0 && (y & (64u16 >> 1)) == 0) <==> (x + 1) % 64 == 0) by (bit_vector)
            requires
                y == (x + 1) % 65536,
        ;
    } else if freq == 256 {
        assert(((x & (256u16 >> 1)) != 0 && (y & (256u16 >> 1)) == 0) <==> (x + 1) % 256 == 0) by (bit_vector)
            requires
                y == (x + 1) % 65536,
        ;
    } else {
        assert(((x & (1024u16 >> 1)) != 0 && (y & (1024u16 >> 1)) == 0) <==> (x + 1) % 1024 == 0) by (bit_vector)
            requires
                y == (x + 1) % 65536,
        ;
    }
}

proof fn lemma_edge_count(div0: int, i: int, d: int)
    requires
        d == 16 || d == 64 || d == 256 || d == 1024,
        0 <= div0 < 65536,
        0 <= i,
    ensures
        ((div0 + i) % 65536 + 1) % d == 0 <==> (div0 % d + i + 1) % d == 0,
        (div0 % d + i + 1) / d == (div0 % d + i) / d + (if (div0 % d + i + 1) % d == 0 {
            1int
        } else {
            0int
        }),
        ((div0 + i) % 65536 + 1) % 65536 == (div0 + i + 1) % 65536,
{
    let k: int = 65536int / d;
    assert(k * d == 65536);
    lemma_add_mod_noop(div0 + i, 1, 65536);
    lemma_mod_mod(div0 + i + 1, d, k);
    lemma_mod_mod(div0 + i, d, k);
    lemma_mod_add_multiples_vanish((div0 + i) % 65536 + 1, d);
    lemma_add_mod_noop((div0 + i) % 65536, 1, d);
    lemma_add_mod_noop(div0 + i, 1, d);
    lemma_add_mod_noop(div0, i + 1, d);
    lemma_mod_twice(div0, d);
    lemma_add_mod_noop(div0 % d, i + 1, d);
    let m = div0 % d + i;
    lemma_fundamental_div_mod(m, d);
    lemma_fundamental_div_mod(m + 1, d);
    lemma_mod_bound(m, d);
    lemma_mod_bound(m + 1, d);
    assert((m + 1) % d == 0 ==> (m + 1) / d == m / d + 1) by (nonlinear_arith)
        requires
            m == d * (m / d) + m % d,
            m + 1 == d * ((m + 1) / d) + (m + 1) % d,
            0 <= m % d < d,
            0 <= (m + 1) % d < d,
            d > 0,
    ;
    assert((m + 1) % d != 0 ==> (m + 1) / d == m / d) by (nonlinear_arith)
        requires
            m == d * (m / d) + m % d,
            m + 1 == d * ((m + 1) / d) + (m + 1) % d,
            0 <= m % d < d,
            0 <= (m + 1) % d < d,
            d > 0,
    ;
}

proof fn lemma_tima_no_overflow(tima: u8, tma: u8, k: nat)
    requires
        tima + k <= 255,
    ensures
        tima_after(tima, tma, k) == ((tima + k) as u8, false),
    decreases k,
{
    if k > 0 {
        lemma_tima_no_overflow(tima, tma, (k - 1) as nat);
    }
}

/// With TIMA enabled and the divider at a multiple of the period `d`, a tick
/// of `n` cycles increments TIMA exactly `n / d` times: without an overflow,
/// TIMA grows by `n / d` and no interrupt is requested.
pub proof fn lemma_timer_increments(t: Timer, n: nat)
    requires
        t.enabled(),
        t.div as int % timer_period(t.tac) == 0,
        t.tima + (n as int) / timer_period(t.tac) <= 255,
    ensures
        t.ticked(n).0.tima == t.tima + (n as int) / timer_period(t.tac),
        !t.ticked(n).1,
        t.ticked(n).0.div == (t.div + n) % 65536,
{
    let d = timer_period(t.tac);
    assert(timer_edges(t.div, n, d) == (n as int) / d);
    lemma_tima_no_overflow(t.tima, t.tma, ((n as int) / d) as nat);
}

} // verus!
