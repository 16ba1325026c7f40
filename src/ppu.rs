//! The pixel unit: a state machine over the scan lines of a frame, driven by
//! the processor's cycles, that draws the background into a framebuffer and
//! raises the V-blank interrupt.
use vstd::prelude::*;
use crate::cpu::signed8;
use crate::lcd::{height_of, lcd_height, lcd_pixels, lcd_width, put_pixel, width_of, Lcd, Rgba8};
use crate::mmu::{lemma_flag_keeps_reads, lemma_flag_twice, lemma_read_ly, Mmu, MmuView};

verus! {

pub const LCD_WIDTH: usize = 160;

pub const LCD_HEIGHT: usize = 144;

pub const MODE_HBLANK: u8 = 0;

pub const MODE_VBLANK: u8 = 1;

pub const MODE_OAM_SEARCH: u8 = 2;

pub const MODE_DRAWING: u8 = 3;

/// Cycles of one scan line.
pub const LINE_CYCLES: isize = 456;

/// Cycles of the OAM search at the start of a visible line.
pub const OAM_CYCLES: isize = 80;

/// The four shades of the display.
pub open spec fn lcd_palette(shade: u8) -> Rgba8 {
    if shade == 0 {
        (198, 227, 195, 255)
    } else if shade == 1 {
        (157, 181, 154, 255)
    } else if shade == 2 {
        (110, 128, 8, 255)
    } else {
        (53, 61, 52, 255)
    }
}

/// Address of the first byte of background tile `tile`: unsigned from 0x8000
/// when LCDC bit 4 is set, else signed from 0x9000.
pub open spec fn tile_address(control: u8, tile: u8) -> int {
    if control & 0x10 != 0 {
        0x8000 + tile * 16
    } else {
        0x9000 + signed8(tile) * 16
    }
}

/// The background colour index (0 to 3) at screen position `(x, ly)`.
pub open spec fn bg_color_index(m: MmuView, control: u8, scy: u8, scx: u8, ly: u8, x: u8) -> u8 {
    let yv = (ly + scy) % 256;
    let xv = (x + scx) % 256;
    let map: int = if control & 0x08 == 0 {
        0x9800
    } else {
        0x9c00
    };
    let tile = m.read((map + 32 * (yv / 8) + xv / 8) as u16);
    let row = tile_address(control, tile) + (yv % 8) * 2;
    let upper = m.read(row as u16);
    let lower = m.read((row + 1) as u16);
    let bit = (7 - xv % 8) as u8;
    (((upper >> bit) & 1) * 2 + ((lower >> bit) & 1)) as u8
}

/// The shade that palette register `bgp` gives colour index `index`.
pub open spec fn palette_shade(bgp: u8, index: u8) -> u8 {
    (bgp >> ((2 * index) as u8)) & 3
}

/// What one run of the pixel unit reads once at its start.
pub struct PpuEnv {
    pub mmu: MmuView,
    pub control: u8,
    pub scy: u8,
    pub scx: u8,
    pub bgp: u8,
    pub width: u32,
    pub height: u32,
}

/// The state the pixel unit's loop works on.
pub struct PpuState {
    pub mode: u8,
    pub x: u8,
    pub ly: u8,
    pub cycles_left: int,
    pub line_left: int,
    /// Whether the V-blank interrupt was raised.
    pub vblank: bool,
    pub pixels: Map<(u32, u32), Rgba8>,
}

impl PpuState {
    pub open spec fn measure(self) -> int {
        2 * self.cycles_left + if self.mode == MODE_HBLANK {
            1int
        } else {
            0int
        }
    }

    /// One transition of the state machine, or `None` when the cycles left do
    /// not pay for the next one.
    #[verifier::opaque]
    pub open spec fn next(self, env: PpuEnv) -> Option<PpuState> {
        if self.cycles_left <= 0 {
            None
        } else if self.mode == MODE_VBLANK {
            if self.cycles_left >= LINE_CYCLES {
                if self.ly >= 153 {
                    Some(
                        PpuState {
                            cycles_left: self.cycles_left - LINE_CYCLES,
                            ly: 0,
                            mode: MODE_OAM_SEARCH,
                            ..self
                        },
                    )
                } else {
                    Some(
                        PpuState {
                            cycles_left: self.cycles_left - LINE_CYCLES,
                            ly: (self.ly + 1) as u8,
                            ..self
                        },
                    )
                }
            } else {
                None
            }
        } else if self.mode == MODE_HBLANK {
            if self.cycles_left >= self.line_left {
                let ly = ((self.ly + 1) % 256) as u8;
                Some(
                    PpuState {
                        cycles_left: self.cycles_left - self.line_left,
                        line_left: 0,
                        ly,
                        mode: if ly < 144 {
                            MODE_OAM_SEARCH
                        } else {
                            MODE_VBLANK
                        },
                        vblank: self.vblank || ly >= 144,
                        ..self
                    },
                )
            } else {
                None
            }
        } else if self.mode == MODE_OAM_SEARCH {
            if self.cycles_left >= OAM_CYCLES {
                Some(
                    PpuState {
                        cycles_left: self.cycles_left - OAM_CYCLES,
                        line_left: LINE_CYCLES - OAM_CYCLES,
                        x: 0,
                        mode: MODE_DRAWING,
                        ..self
                    },
                )
            } else {
                None
            }
        } else {
            let index = bg_color_index(env.mmu, env.control, env.scy, env.scx, self.ly, self.x);
            let color = lcd_palette(palette_shade(env.bgp, index));
            let pixels = if (self.x as u32) < env.width && (self.ly as u32) < env.height {
                self.pixels.insert((self.x as u32, self.ly as u32), color)
            } else {
                self.pixels
            };
            Some(
                PpuState {
                    x: (self.x + 1) as u8,
                    mode: if self.x + 1 >= 160 {
                        MODE_HBLANK
                    } else {
                        MODE_DRAWING
                    },
                    cycles_left: self.cycles_left - 1,
                    line_left: self.line_left - 1,
                    pixels,
                    ..self
                },
            )
        }
    }

    /// The state once no transition is paid for.
    pub open spec fn run(self, env: PpuEnv) -> PpuState
        decreases self.measure(),
    {
        match self.next(env) {
            Some(t) => if 0 <= t.measure() < self.measure() {
                t.run(env)
            } else {
                self
            },
            None => self,
        }
    }
}

impl PpuState {
    proof fn lemma_run_unfold(self, env: PpuEnv)
        ensures
            self.next(env) is None ==> self.run(env) == self,
            self.next(env) is Some && 0 <= self.next(env).unwrap().measure() < self.measure()
                ==> self.run(env) == self.next(env).unwrap().run(env),
    {
    }

    /// Equal in everything but the pixels drawn.
    pub open spec fn same_but_pixels(self, o: PpuState) -> bool {
        &&& self.mode == o.mode
        &&& self.x == o.x
        &&& self.ly == o.ly
        &&& self.cycles_left == o.cycles_left
        &&& self.line_left == o.line_left
        &&& self.vblank == o.vblank
    }

    /// The scan lines that a run from here enters, in order, and how many
    /// times it enters V-blank.
    pub open spec fn ly_trace(self, env: PpuEnv) -> (Seq<u8>, nat)
        decreases self.measure(),
    {
        match self.next(env) {
            Some(t) => if 0 <= t.measure() < self.measure() {
                let (l, v) = t.ly_trace(env);
                (
                    if t.ly != self.ly {
                        seq![t.ly] + l
                    } else {
                        l
                    },
                    v + if self.mode != MODE_VBLANK && t.mode == MODE_VBLANK {
                        1nat
                    } else {
                        0nat
                    },
                )
            } else {
                (Seq::empty(), 0nat)
            },
            None => (Seq::empty(), 0nat),
        }
    }

    pub open spec fn after_drawing(self) -> PpuState {
        PpuState {
            mode: MODE_HBLANK,
            x: 160,
            cycles_left: self.cycles_left - (160 - self.x),
            line_left: self.line_left - (160 - self.x),
            ..self
        }
    }

    pub open spec fn after_line(self) -> PpuState {
        PpuState {
            mode: if self.ly + 1 < 144 {
                MODE_OAM_SEARCH
            } else {
                MODE_VBLANK
            },
            x: 160,
            ly: (self.ly + 1) as u8,
            cycles_left: self.cycles_left - LINE_CYCLES,
            line_left: 0,
            vblank: self.vblank || self.ly + 1 >= 144,
            ..self
        }
    }

    pub open spec fn after_visible(self) -> PpuState {
        PpuState {
            mode: MODE_VBLANK,
            x: 160,
            ly: 144,
            cycles_left: self.cycles_left - (144 - self.ly) * LINE_CYCLES,
            line_left: 0,
            vblank: true,
            ..self
        }
    }

    pub open spec fn after_vblank(self) -> PpuState {
        PpuState {
            mode: MODE_OAM_SEARCH,
            ly: 0,
            cycles_left: self.cycles_left - (154 - self.ly) * LINE_CYCLES,
            ..self
        }
    }

    proof fn lemma_pixels_irrelevant(self, o: PpuState, env: PpuEnv)
        requires
            self.same_but_pixels(o),
        ensures
            self.run(env).same_but_pixels(o.run(env)),
            self.ly_trace(env) == o.ly_trace(env),
        decreases self.measure(),
    {
        reveal(PpuState::next);
        match self.next(env) {
            Some(t) => {
                let u = o.next(env).unwrap();
                assert(t.same_but_pixels(u));
                if 0 <= t.measure() < self.measure() {
                    t.lemma_pixels_irrelevant(u, env);
                }
            },
            None => {},
        }
    }

    proof fn lemma_drawing(self, env: PpuEnv)
        requires
            self.mode == MODE_DRAWING,
            self.x < 160,
            self.cycles_left >= 160 - self.x,
            self.line_left >= 160 - self.x,
        ensures
            self.run(env).same_but_pixels(self.after_drawing().run(env)),
            self.ly_trace(env) == self.after_drawing().ly_trace(env),
        decreases 160 - self.x,
    {
        reveal(PpuState::next);
        let t = self.next(env).unwrap();
        assert(0 <= t.measure() < self.measure());
        let goal = self.after_drawing();
        if self.x + 1 < 160 {
            t.lemma_drawing(env);
            t.after_drawing().lemma_pixels_irrelevant(goal, env);
        } else {
            t.lemma_pixels_irrelevant(goal, env);
        }
    }

    proof fn lemma_visible_line(self, env: PpuEnv)
        requires
            self.mode == MODE_OAM_SEARCH,
            self.ly < 144,
            self.cycles_left >= LINE_CYCLES,
        ensures
            self.run(env).same_but_pixels(self.after_line().run(env)),
            self.ly_trace(env) == (
                seq![(self.ly + 1) as u8] + self.after_line().ly_trace(env).0,
                self.after_line().ly_trace(env).1 + if self.ly + 1 >= 144 {
                    1nat
                } else {
                    0nat
                },
            ),
    {
        reveal(PpuState::next);
        let d = self.next(env).unwrap();
        assert(0 <= d.measure() < self.measure());
        d.lemma_drawing(env);
        let h = d.after_drawing();
        let n = h.next(env).unwrap();
        assert(0 <= n.measure() < h.measure());
        n.lemma_pixels_irrelevant(self.after_line(), env);
    }

    proof fn lemma_visible_lines(self, env: PpuEnv)
        requires
            self.mode == MODE_OAM_SEARCH,
            self.ly < 144,
            self.cycles_left >= (144 - self.ly) * LINE_CYCLES,
        ensures
            self.run(env).same_but_pixels(self.after_visible().run(env)),
            self.ly_trace(env) == (
                Seq::new((144 - self.ly) as nat, |i: int| (self.ly + 1 + i) as u8)
                    + self.after_visible().ly_trace(env).0,
                self.after_visible().ly_trace(env).1 + 1,
            ),
        decreases 144 - self.ly,
    {
        self.lemma_visible_line(env);
        let n = self.after_line();
        let goal = self.after_visible();
        let g = goal.ly_trace(env);
        if self.ly + 1 < 144 {
            assert(n.cycles_left >= (144 - n.ly) * LINE_CYCLES) by (nonlinear_arith)
                requires
                    n.cycles_left == self.cycles_left - LINE_CYCLES,
                    n.ly == self.ly + 1,
                    self.cycles_left >= (144 - self.ly) * LINE_CYCLES,
            ;
            n.lemma_visible_lines(env);
            assert(n.cycles_left - (144 - n.ly) * LINE_CYCLES == goal.cycles_left) by (nonlinear_arith)
                requires
                    n.cycles_left == self.cycles_left - LINE_CYCLES,
                    n.ly == self.ly + 1,
                    goal.cycles_left == self.cycles_left - (144 - self.ly) * LINE_CYCLES,
            ;
            n.after_visible().lemma_pixels_irrelevant(goal, env);
            assert(seq![(self.ly + 1) as u8] + (Seq::new((144 - n.ly) as nat, |i: int| (n.ly + 1 + i) as u8)
                + g.0) =~= Seq::new((144 - self.ly) as nat, |i: int| (self.ly + 1 + i) as u8) + g.0);
        } else {
            n.lemma_pixels_irrelevant(goal, env);
            assert(seq![(self.ly + 1) as u8] + g.0 =~= Seq::new(
                (144 - self.ly) as nat,
                |i: int| (self.ly + 1 + i) as u8,
            ) + g.0);
        }
    }

    proof fn lemma_vblank_lines(self, env: PpuEnv)
        requires
            self.mode == MODE_VBLANK,
            144 <= self.ly <= 153,
            self.cycles_left >= (154 - self.ly) * LINE_CYCLES,
        ensures
            self.run(env).same_but_pixels(self.after_vblank().run(env)),
            self.ly_trace(env) == (
                Seq::new((153 - self.ly) as nat, |i: int| (self.ly + 1 + i) as u8) + seq![0u8]
                    + self.after_vblank().ly_trace(env).0,
                self.after_vblank().ly_trace(env).1,
            ),
        decreases 154 - self.ly,
    {
        reveal(PpuState::next);
        let n = self.next(env).unwrap();
        assert(0 <= n.measure() < self.measure());
        let goal = self.after_vblank();
        let g = goal.ly_trace(env);
        if self.ly < 153 {
            assert(n.cycles_left >= (154 - n.ly) * LINE_CYCLES) by (nonlinear_arith)
                requires
                    n.cycles_left == self.cycles_left - LINE_CYCLES,
                    n.ly == self.ly + 1,
                    self.cycles_left >= (154 - self.ly) * LINE_CYCLES,
            ;
            n.lemma_vblank_lines(env);
            assert(n.cycles_left - (154 - n.ly) * LINE_CYCLES == goal.cycles_left) by (nonlinear_arith)
                requires
                    n.cycles_left == self.cycles_left - LINE_CYCLES,
                    n.ly == self.ly + 1,
                    goal.cycles_left == self.cycles_left - (154 - self.ly) * LINE_CYCLES,
            ;
            n.after_vblank().lemma_pixels_irrelevant(goal, env);
            assert(seq![(self.ly + 1) as u8] + (Seq::new((153 - n.ly) as nat, |i: int| (n.ly + 1 + i) as u8)
                + seq![0u8] + g.0) =~= Seq::new((153 - self.ly) as nat, |i: int| (self.ly + 1 + i) as u8)
                + seq![0u8] + g.0);
        } else {
            n.lemma_pixels_irrelevant(goal, env);
            assert(seq![0u8] + g.0 =~= Seq::new((153 - self.ly) as nat, |i: int| (self.ly + 1 + i) as u8)
                + seq![0u8] + g.0);
        }
    }

    /// The registers' invariant, on the state machine.
    pub open spec fn sane(self) -> bool {
        &&& 0 <= self.cycles_left
        &&& self.mode < 4
        &&& self.x <= 160
        &&& (self.mode == MODE_DRAWING ==> self.x < 160 && self.line_left >= 160 - self.x)
        &&& 0 <= self.line_left <= LINE_CYCLES - OAM_CYCLES
    }

    /// The state with `b` more cycles in hand.
    pub open spec fn with_more(self, b: int) -> PpuState {
        PpuState { cycles_left: self.cycles_left + b, ..self }
    }

    proof fn lemma_next_sane(self, env: PpuEnv)
        requires
            self.sane(),
            self.next(env) is Some,
        ensures
            self.next(env).unwrap().sane(),
            0 <= self.next(env).unwrap().measure() < self.measure(),
    {
        reveal(PpuState::next);
    }

    proof fn lemma_next_more(self, env: PpuEnv, b: int)
        requires
            self.sane(),
            0 <= b,
            self.next(env) is Some,
        ensures
            self.with_more(b).next(env) == Some(self.next(env).unwrap().with_more(b)),
    {
        reveal(PpuState::next);
    }

    /// Running with `b` more cycles is running as before, then running on
    /// with the `b` cycles added: a run can be split anywhere into pieces.
    /// The scan lines entered, and the V-blank entries, add up likewise.
    pub proof fn lemma_run_in_pieces(self, env: PpuEnv, b: int)
        requires
            self.sane(),
            0 <= b,
        ensures
            self.with_more(b).run(env) == self.run(env).with_more(b).run(env),
            self.with_more(b).ly_trace(env) == (
                self.ly_trace(env).0 + self.run(env).with_more(b).ly_trace(env).0,
                self.ly_trace(env).1 + self.run(env).with_more(b).ly_trace(env).1,
            ),
        decreases self.measure(),
    {
        match self.next(env) {
            Some(t) => {
                self.lemma_next_sane(env);
                self.lemma_next_more(env, b);
                let tb = t.with_more(b);
                assert(0 <= tb.measure() < self.with_more(b).measure());
                t.lemma_run_in_pieces(env, b);
                let (l1, v1) = t.ly_trace(env);
                let (l2, v2) = t.run(env).with_more(b).ly_trace(env);
                if t.ly != self.ly {
                    assert(seq![t.ly] + (l1 + l2) =~= (seq![t.ly] + l1) + l2);
                }
            },
            None => {
                assert(self.ly_trace(env).0 + self.with_more(b).ly_trace(env).0 =~= self.with_more(b).ly_trace(env).0);
            },
        }
    }

    proof fn lemma_stopped(self, env: PpuEnv)
        requires
            self.next(env) is None,
            self.mode < 4,
            self.line_left <= LINE_CYCLES - OAM_CYCLES,
        ensures
            self.cycles_left < LINE_CYCLES,
    {
        reveal(PpuState::next);
    }
}

/// The pixel unit's registers.
pub struct Ppu {
    pub cycles_left: isize,
    pub x: u8,
    pub mode: u8,
    pub cycles_left_current_line: isize,
}

/// Whether scan line `ly` fits `mode`: the visible modes on lines 0 to 143,
/// V-blank on lines 144 to 153.
pub open spec fn ly_fits(mode: u8, ly: u8) -> bool {
    if mode == MODE_VBLANK {
        144 <= ly <= 153
    } else {
        ly < 144
    }
}

#[verifier::opaque]
/// What `Ppu::run_for` leaves: the registers, the memory map and the pixels
/// after `cycles` more cycles from registers `p`, map `m` and pixels
/// `pixels` of a `width` by `height` framebuffer.
pub open spec fn run_for_result(
    p: Ppu,
    m: MmuView,
    pixels: Map<(u32, u32), Rgba8>,
    width: u32,
    height: u32,
    cycles: int,
) -> (Ppu, MmuView, Map<(u32, u32), Rgba8>) {
    let env = PpuEnv {
        mmu: m,
        control: m.read(0xff40),
        scy: m.read(0xff42),
        scx: m.read(0xff43),
        bgp: m.read(0xff47),
        width,
        height,
    };
    let s0 = PpuState {
        mode: p.mode,
        x: p.x,
        ly: m.read(0xff44),
        cycles_left: p.cycles_left + cycles,
        line_left: p.cycles_left_current_line as int,
        vblank: false,
        pixels,
    };
    let s1 = s0.run(env);
    let m1 = mmu_during(m, s1.vblank).write(0xff41, (m.read(0xff41) & 0xfc) | s1.mode);
    (
        Ppu {
            cycles_left: s1.cycles_left as isize,
            x: s1.x,
            mode: s1.mode,
            cycles_left_current_line: s1.line_left as isize,
        },
        MmuView { memory: m1.memory.update(0xff44, s1.ly), ..m1 },
        s1.pixels,
    )
}

/// The memory map while the pixel unit runs: as at its start, with the
/// V-blank flag raised once it has been.
pub open spec fn mmu_during(m: MmuView, vblank: bool) -> MmuView {
    if vblank {
        m.flag_interrupt(0x01)
    } else {
        m
    }
}

fn palette_color(shade: u8) -> (r: Rgba8)
    ensures
        r == lcd_palette(shade),
{
    if shade == 0 {
        (198, 227, 195, 255)
    } else if shade == 1 {
        (157, 181, 154, 255)
    } else if shade == 2 {
        (110, 128, 8, 255)
    } else {
        (53, 61, 52, 255)
    }
}

fn bg_color(mmu: &Mmu, control: u8, scy: u8, scx: u8, ly: u8, x: u8) -> (r: u8)
    requires
        mmu.wf(),
    ensures
        r == bg_color_index(mmu@, control, scy, scx, ly, x),
        r <= 3,
{
    let yv: u16 = (ly as u16 + scy as u16) % 256;
    let xv: u16 = (x as u16 + scx as u16) % 256;
    let map: u16 = if control & 0x08 == 0 {
        0x9800
    } else {
        0x9c00
    };
    let tile = mmu.read(map + 32 * (yv / 8) + xv / 8);
    let base: u16 = if control & 0x10 != 0 {
        0x8000 + tile as u16 * 16
    } else if tile < 128 {
        0x9000 + tile as u16 * 16
    } else {
        0x9000 - (256 - tile as u16) * 16
    };
    let row = base + (yv % 8) * 2;
    let upper = mmu.read(row);
    let lower = mmu.read(row + 1);
    let bit = (7 - xv % 8) as u8;
    let hi = (upper >> bit) & 1;
    let lo = (lower >> bit) & 1;
    assert(hi <= 1 && lo <= 1) by (bit_vector)
        requires
            hi == (upper >> bit) & 1,
            lo == (lower >> bit) & 1,
    ;
    hi * 2 + lo
}

fn shade_of(bgp: u8, index: u8) -> (r: u8)
    requires
        index <= 3,
    ensures
        r == palette_shade(bgp, index),
{
    (bgp >> (2 * index)) & 3
}

impl Ppu {
    /// The invariant of the registers while the unit runs.
    pub open spec fn wf_state(&self) -> bool {
        &&& 0 <= self.cycles_left
        &&& self.mode < 4
        &&& self.x <= 160
        &&& (self.mode == MODE_DRAWING ==> self.x < 160 && self.cycles_left_current_line >= 160
            - self.x)
        &&& 0 <= self.cycles_left_current_line <= LINE_CYCLES - OAM_CYCLES
    }

    /// The invariant of the registers between runs.
    pub open spec fn wf(&self) -> bool {
        self.wf_state() && self.cycles_left < LINE_CYCLES
    }

    pub open spec fn state(&self, ly: u8, vblank: bool, lcd: Lcd) -> PpuState {
        PpuState {
            mode: self.mode,
            x: self.x,
            ly,
            cycles_left: self.cycles_left as int,
            line_left: self.cycles_left_current_line as int,
            vblank,
            pixels: lcd_pixels(lcd),
        }
    }

    /// A pixel unit at the start of V-blank, with no cycles in hand.
    pub fn new() -> (r: Ppu)
        ensures
            r.wf(),
            r == (Ppu { cycles_left: 0, x: 0, mode: MODE_VBLANK, cycles_left_current_line: 0 }),
    {
        Ppu { cycles_left: 0, x: 0, mode: MODE_VBLANK, cycles_left_current_line: 0 }
    }
    fn advance(
        &mut self,
        ly: &mut u8,
        vblank: &mut bool,
        mmu: &mut Mmu,
        lcd: &mut Lcd,
        env: Ghost<PpuEnv>,
        control: u8,
        scy: u8,
        scx: u8,
        bgp: u8,
        width: u32,
        height: u32,
    ) -> (progress: bool)
        requires
            old(self).wf_state(),
            ly_fits(old(self).mode, *old(ly)),
            env@.mmu.wf(),
            old(mmu)@ == mmu_during(env@.mmu, *old(vblank)),
            env@.control == control,
            env@.scy == scy,
            env@.scx == scx,
            env@.bgp == bgp,
            env@.width == width == lcd_width(*old(lcd)),
            env@.height == height == lcd_height(*old(lcd)),
        ensures
            final(self).wf_state(),
            ly_fits(final(self).mode, *final(ly)),
            final(mmu)@ == mmu_during(env@.mmu, *final(vblank)),
            lcd_width(*final(lcd)) == width,
            lcd_height(*final(lcd)) == height,
            progress == old(self).state(*old(ly), *old(vblank), *old(lcd)).next(env@) is Some,
            !progress ==> *final(self) == *old(self) && *final(ly) == *old(ly) && *final(vblank)
                == *old(vblank) && *final(lcd) == *old(lcd),
            progress ==> old(self).state(*old(ly), *old(vblank), *old(lcd)).next(env@) == Some(
                final(self).state(*final(ly), *final(vblank), *final(lcd)),
            ),
            progress ==> 0 <= final(self).state(*final(ly), *final(vblank), *final(lcd)).measure()
                < old(self).state(*old(ly), *old(vblank), *old(lcd)).measure(),
    {
        proof {
            lemma_flag_twice(env@.mmu, 0x01);
            reveal(PpuState::next);
        }
        if self.cycles_left <= 0 {
            return false;
        }
        if self.mode == MODE_VBLANK {
            if self.cycles_left >= LINE_CYCLES {
                self.cycles_left = self.cycles_left - LINE_CYCLES;
                if *ly >= 153 {
                    *ly = 0;
                    self.mode = MODE_OAM_SEARCH;
                } else {
                    *ly = *ly + 1;
                }
                true
            } else {
                false
            }
        } else if self.mode == MODE_HBLANK {
            if self.cycles_left >= self.cycles_left_current_line {
                self.cycles_left = self.cycles_left - self.cycles_left_current_line;
                self.cycles_left_current_line = 0;
                *ly = ly.wrapping_add(1);
                if *ly < 144 {
                    self.mode = MODE_OAM_SEARCH;
                } else {
                    self.mode = MODE_VBLANK;
                    mmu.flag_interrupt(0x01);
                    *vblank = true;
                }
                true
            } else {
                false
            }
        } else if self.mode == MODE_OAM_SEARCH {
            if self.cycles_left >= OAM_CYCLES {
                self.cycles_left = self.cycles_left - OAM_CYCLES;
                self.cycles_left_current_line = LINE_CYCLES - OAM_CYCLES;
                self.x = 0;
                self.mode = MODE_DRAWING;
                true
            } else {
                false
            }
        } else {
            let index = bg_color(mmu, control, scy, scx, *ly, self.x);
            proof {
                let m = env@.mmu;
                let yv = (*ly + scy) % 256;
                let xv = (self.x + scx) % 256;
                let map: int = if control & 0x08 == 0 {
                    0x9800
                } else {
                    0x9c00
                };
                let ta = (map + 32 * (yv / 8) + xv / 8) as u16;
                if *vblank {
                    lemma_flag_keeps_reads(m, 0x01, ta);
                    let tile = m.read(ta);
                    let row = tile_address(control, tile) + (yv % 8) * 2;
                    lemma_flag_keeps_reads(m, 0x01, row as u16);
                    lemma_flag_keeps_reads(m, 0x01, (row + 1) as u16);
                }
            }
            let color = palette_color(shade_of(bgp, index));
            if (self.x as u32) < width && (*ly as u32) < height {
                put_pixel(lcd, self.x as u32, *ly as u32, color);
            }
            self.x = self.x + 1;
            if self.x >= 160 {
                self.mode = MODE_HBLANK;
            }
            self.cycles_left = self.cycles_left - 1;
            self.cycles_left_current_line = self.cycles_left_current_line - 1;
            true
        }
    }

    /// Spends `cycles` (with the cycles carried from the last run) on the
    /// state machine: OAM search, drawing one background pixel per cycle,
    /// H-blank, and V-blank lines; then stores the mode in STAT (0xFF41) and
    /// the scan line in LY (0xFF44).
    pub fn run_for(&mut self, mmu: &mut Mmu, lcd: &mut Lcd, cycles: isize)
        requires
            old(self).wf(),
            old(mmu).wf(),
            ly_fits(old(self).mode, old(mmu)@.memory[0xff44]),
            0 <= cycles <= isize::MAX - LINE_CYCLES,
        ensures
            (*final(self), final(mmu)@, lcd_pixels(*final(lcd))) == run_for_result(
                *old(self),
                old(mmu)@,
                lcd_pixels(*old(lcd)),
                lcd_width(*old(lcd)),
                lcd_height(*old(lcd)),
                cycles as int,
            ),
            lcd_width(*final(lcd)) == lcd_width(*old(lcd)),
            lcd_height(*final(lcd)) == lcd_height(*old(lcd)),
            final(self).wf(),
            final(mmu).wf(),
            ly_fits(final(self).mode, final(mmu)@.memory[0xff44]),
            final(mmu)@.memory[0xff44] <= 153,
    {
        self.cycles_left = self.cycles_left + cycles;
        let scroll_y = mmu.read(0xff42);
        let scroll_x = mmu.read(0xff43);
        let mut ly = mmu.read(0xff44);
        proof {
            lemma_read_ly(mmu@);
        }
        let control = mmu.read(0xff40);
        let bgp = mmu.read(0xff47);
        let width = width_of(lcd);
        let height = height_of(lcd);
        let ghost env = PpuEnv {
            mmu: mmu@,
            control,
            scy: scroll_y,
            scx: scroll_x,
            bgp,
            width,
            height,
        };
        let mut vblank = false;
        let ghost s0 = self.state(ly, vblank, *lcd);
        let mut progress = true;
        while progress
            invariant
                self.wf_state(),
                ly_fits(self.mode, ly),
                env.mmu.wf(),
                mmu@ == mmu_during(env.mmu, vblank),
                env.control == control,
                env.scy == scroll_y,
                env.scx == scroll_x,
                env.bgp == bgp,
                env.width == width == lcd_width(*lcd),
                env.height == height == lcd_height(*lcd),
                self.state(ly, vblank, *lcd).run(env) == s0.run(env),
                !progress ==> self.state(ly, vblank, *lcd).next(env) is None,
            decreases self.state(ly, vblank, *lcd).measure() * 2 + if progress {
                1int
            } else {
                0int
            },
        {
            let ghost before = self.state(ly, vblank, *lcd);
            progress = self.advance(
                &mut ly,
                &mut vblank,
                mmu,
                lcd,
                Ghost(env),
                control,
                scroll_y,
                scroll_x,
                bgp,
                width,
                height,
            );
            proof {
                if progress {
                    before.lemma_run_unfold(env);
                }
            }
        }
        proof {
            self.state(ly, vblank, *lcd).lemma_run_unfold(env);
            self.state(ly, vblank, *lcd).lemma_stopped(env);
        }
        let stat = mmu.read(0xff41);
        proof {
            if vblank {
                lemma_flag_keeps_reads(env.mmu, 0x01, 0xff41);
            }
        }
        mmu.write(0xff41, (stat & 0xfc) | self.mode);
        mmu.set_ly(ly);
        proof {
            reveal(run_for_result);
        }
    }
}

/// Cycles of one frame: 154 lines.
pub const FRAME_CYCLES: isize = 70224;

/// One frame's worth of cycles from the start of a frame (OAM search of line
/// 0) brings the pixel unit back to the start of the next frame with nothing
/// left over. On the way LY enters 1, 2, ..., 153 and then 0, each once and
/// in that order, and V-blank is entered, raising its interrupt, exactly
/// once.
pub proof fn lemma_one_frame(s: PpuState, env: PpuEnv)
    requires
        s.mode == MODE_OAM_SEARCH,
        s.ly == 0,
        s.cycles_left == FRAME_CYCLES,
        !s.vblank,
    ensures
        s.run(env).mode == MODE_OAM_SEARCH,
        s.run(env).ly == 0,
        s.run(env).cycles_left == 0,
        s.run(env).vblank,
        s.ly_trace(env) == (Seq::new(153, |i: int| (i + 1) as u8).push(0u8), 1nat),
{
    s.lemma_visible_lines(env);
    let v = s.after_visible();
    v.lemma_vblank_lines(env);
    let e = v.after_vblank();
    reveal(PpuState::next);
    assert(e.cycles_left == 0);
    assert(e.next(env) is None);
    assert(e.run(env) == e);
    assert(e.ly_trace(env) == (Seq::<u8>::empty(), 0nat));
    assert(Seq::new(144, |i: int| (0 + 1 + i) as u8) + (Seq::new(9, |i: int| (144 + 1 + i) as u8) + seq![0u8]
        + Seq::<u8>::empty()) =~= Seq::new(153, |i: int| (i + 1) as u8).push(0u8));
}

} // verus!
