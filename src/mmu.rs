//! The memory map: main memory, cartridge ROM with a bank selector, the boot
//! ROM overlay, memory-mapped IO (joypad, timer, DMA, interrupt flags).
use vstd::prelude::*;
use crate::timer::Timer;

verus! {

/// Bytes of main memory.
pub const MEMORY_SIZE: usize = 0x10000;

/// Bytes of cartridge ROM: up to 1 MiB (64 banks of 16 KiB; the 5-bit
/// selector reaches the first 32).
pub const ROM_SIZE: usize = 0x100000;

/// Bytes of boot ROM.
pub const BOOT_ROM_SIZE: usize = 0x100;

/// The memory map.
pub struct Mmu {
    memory: Vec<u8>,
    rom: Vec<u8>,
    boot_rom: Vec<u8>,
    boot_rom_enable: bool,
    timer: Timer,
    bank: u8,
    buttons: u8,
}

/// What a memory map holds.
pub struct MmuView {
    pub memory: Seq<u8>,
    pub rom: Seq<u8>,
    pub boot_rom: Seq<u8>,
    pub boot_rom_enable: bool,
    pub timer: Timer,
    pub bank: u8,
    /// The joypad lines as the register presents them: a clear bit is a
    /// pressed button.
    pub buttons: u8,
}

impl View for Mmu {
    type V = MmuView;

    closed spec fn view(&self) -> MmuView {
        MmuView {
            memory: self.memory@,
            rom: self.rom@,
            boot_rom: self.boot_rom@,
            boot_rom_enable: self.boot_rom_enable,
            timer: self.timer,
            bank: self.bank,
            buttons: self.buttons,
        }
    }
}

/// The bank that a write of `value` to `0x2000..=0x3FFF` selects.
pub open spec fn bank_select(value: u8) -> u8 {
    if value % 32 == 0 {
        1
    } else {
        value % 32
    }
}

/// An IO address that no register of the core answers: it reads as 0xFF.
pub open spec fn unmapped_io(addr: u16) -> bool {
    0xff00 <= addr < 0xff80 && !(addr == 0xff00 || (0xff04 <= addr <= 0xff07) || addr == 0xff0f
        || (0xff40 <= addr <= 0xff4b) || addr == 0xff50)
}

/// The joypad register as read: ones in the top nibble, and below the
/// half-rows that selector bits 4 and 5 of the stored value pick.
pub open spec fn joypad_value(stored: u8, buttons: u8) -> u8 {
    0xf0 | (if stored & 0x10 == 0 {
        buttons | 0xf0
    } else {
        0xff
    }) & (if stored & 0x20 == 0 {
        (buttons >> 4u8) | 0xf0
    } else {
        0xff
    })
}

impl MmuView {
    pub open spec fn wf(self) -> bool {
        &&& self.memory.len() == MEMORY_SIZE
        &&& self.rom.len() == ROM_SIZE
        &&& self.boot_rom.len() == BOOT_ROM_SIZE
        &&& 1 <= self.bank < 32
    }

    /// The byte that a read of `addr` returns.
    #[verifier::opaque]
    pub open spec fn read(self, addr: u16) -> u8 {
        if addr == 0xff00 {
            joypad_value(self.memory[0xff00], self.buttons)
        } else if addr == 0xff04 {
            (self.timer.div / 256) as u8
        } else if addr == 0xff05 {
            self.timer.tima
        } else if addr == 0xff06 {
            self.timer.tma
        } else if addr == 0xff07 {
            self.timer.tac
        } else if addr < 0x100 {
            if self.boot_rom_enable {
                self.boot_rom[addr as int]
            } else {
                self.rom[addr as int]
            }
        } else if addr < 0x4000 {
            self.rom[addr as int]
        } else if addr < 0x8000 {
            self.rom[(addr - 0x4000) + self.bank * 0x4000]
        } else if unmapped_io(addr) {
            0xff
        } else {
            self.memory[addr as int]
        }
    }

    /// Main memory after an OAM DMA from page `value`: the 160 bytes from
    /// `value << 8` are copied to `0xFE00..0xFEA0`.
    pub open spec fn dma(self, value: u8) -> Seq<u8> {
        Seq::new(
            self.memory.len(),
            |j: int|
                if 0xfe00 <= j < 0xfea0 {
                    self.read((value * 256 + (j - 0xfe00)) as u16)
                } else {
                    self.memory[j]
                },
        )
    }

    /// The map after a write of `value` to `addr`.
    #[verifier::opaque]
    pub open spec fn write(self, addr: u16, value: u8) -> MmuView {
        if addr == 0xff04 {
            MmuView { timer: Timer { div: 0, ..self.timer }, ..self }
        } else if addr == 0xff05 {
            MmuView { timer: Timer { tima: value, ..self.timer }, ..self }
        } else if addr == 0xff06 {
            MmuView { timer: Timer { tma: value, ..self.timer }, ..self }
        } else if addr == 0xff07 {
            MmuView { timer: Timer { tac: value, ..self.timer }, ..self }
        } else if addr == 0xff44 {
            self
        } else if addr == 0xff46 {
            MmuView { memory: self.dma(value), ..self }
        } else if addr == 0xff50 {
            MmuView { boot_rom_enable: false, ..self }
        } else if 0x2000 <= addr < 0x4000 {
            MmuView { bank: bank_select(value), ..self }
        } else if addr < 0x8000 {
            self
        } else {
            MmuView { memory: self.memory.update(addr as int, value), ..self }
        }
    }

    /// The map with `bits` raised in the interrupt flags register IF.
    pub open spec fn flag_interrupt(self, bits: u8) -> MmuView {
        MmuView { memory: self.memory.update(0xff0f, bits | self.memory[0xff0f]), ..self }
    }

    /// The map after `n` cycles of the timer.
    pub open spec fn tick(self, n: nat) -> MmuView {
        let (timer, irq) = self.timer.ticked(n);
        let m = MmuView { timer, ..self };
        if irq {
            m.flag_interrupt(0x04)
        } else {
            m
        }
    }
}

impl Mmu {
    pub open spec fn wf(&self) -> bool {
        self@.wf()
    }

    /// Whether the boot ROM still overlays `0x0000..0x0100`.
    pub fn boot_rom_enabled(&self) -> (r: bool)
        ensures
            r == self@.boot_rom_enable,
    {
        self.boot_rom_enable
    }

    /// Writes `value` to `addr`, with the side effects of the memory map.
    pub fn write(&mut self, address: u16, value: u8)
        requires
            old(self).wf(),
        ensures
            final(self)@ == old(self)@.write(address, value),
            final(self).wf(),
            final(self)@.memory[0xff44] == old(self)@.memory[0xff44],
    {
        proof {
            reveal(MmuView::write);
        }
        if address == 0xff04 {
            self.timer.div = 0;
        } else if address == 0xff05 {
            self.timer.tima = value;
        } else if address == 0xff06 {
            self.timer.tma = value;
        } else if address == 0xff07 {
            self.timer.tac = value;
        } else if address == 0xff44 {
        } else if address == 0xff46 {
            self.dma(value);
        } else if address == 0xff50 {
            self.boot_rom_enable = false;
        } else if 0x2000 <= address && address < 0x4000 {
            let b = value % 32;
            self.bank = if b == 0 { 1 } else { b };
        } else if address < 0x8000 {
        } else {
            self.memory.set(address as usize, value);
        }
        proof {
            assert(self@.memory =~= old(self)@.write(address, value).memory);
        }
    }

    fn dma(&mut self, value: u8)
        requires
            old(self).wf(),
        ensures
            final(self)@ == (MmuView { memory: old(self)@.dma(value), ..old(self)@ }),
    {
        proof {
            reveal(MmuView::read);
        }
        let base: u16 = (value as u16) * 256;
        let ghost m0 = self@;
        let mut i: u16 = 0;
        while i < 0xa0
            invariant
                0 <= i <= 0xa0,
                base == value * 256,
                self.wf(),
                self@ == (MmuView { memory: self@.memory, ..m0 }),
                forall|j: int|
                    0 <= j < MEMORY_SIZE ==> #[trigger] self@.memory[j] == if 0xfe00 <= j < 0xfe00
                        + i {
                        m0.read((value * 256 + (j - 0xfe00)) as u16)
                    } else {
                        m0.memory[j]
                    },
            decreases 0xa0 - i,
        {
            proof {
                reveal(MmuView::read);
            }
            let a: u16 = base + i;
            assert(!(0xfe00 <= a < 0xfe00 + i)) by (nonlinear_arith)
                requires
                    a == value * 256 + i,
                    i < 0xa0,
                    value < 256,
            ;
            let b = self.read(a);
            assert(b == m0.read(a));
            self.memory.set(0xfe00 + i as usize, b);
            i = i + 1;
        }
        assert(self@.memory =~= m0.dma(value));
    }

    /// The byte at `address`, as the memory map presents it.
    pub fn read(&self, address: u16) -> (r: u8)
        requires
            self.wf(),
        ensures
            r == self@.read(address),
    {
        proof {
            reveal(MmuView::read);
        }
        if address == 0xff00 {
            let stored = self.memory[0xff00];
            0xf0 | (if stored & 0x10 == 0 {
                self.buttons | 0xf0
            } else {
                0xff
            }) & (if stored & 0x20 == 0 {
                (self.buttons >> 4u8) | 0xf0
            } else {
                0xff
            })
        } else if address == 0xff04 {
            (self.timer.div / 256) as u8
        } else if address == 0xff05 {
            self.timer.tima
        } else if address == 0xff06 {
            self.timer.tma
        } else if address == 0xff07 {
            self.timer.tac
        } else if address < 0x100 {
            if self.boot_rom_enable {
                self.boot_rom[address as usize]
            } else {
                self.rom[address as usize]
            }
        } else if address < 0x4000 {
            self.rom[address as usize]
        } else if address < 0x8000 {
            self.rom[(address - 0x4000) as usize + self.bank as usize * 0x4000]
        } else if 0xff00 <= address && address < 0xff80 && !(address == 0xff00 || (0xff04 <= address
            && address <= 0xff07) || address == 0xff0f || (0xff40 <= address && address <= 0xff4b)
            || address == 0xff50) {
            0xff
        } else {
            self.memory[address as usize]
        }
    }

    /// A memory map with every byte 0xFF but LY, which holds the last
    /// V-blank line 153; the boot ROM enabled, bank 1 selected and no button
    /// pressed.
    pub fn new() -> (r: Mmu)
        ensures
            r.wf(),
            r@.memory == Seq::new(MEMORY_SIZE as nat, |i: int| 0xffu8).update(0xff44, 153u8),
            r@.rom == Seq::new(ROM_SIZE as nat, |i: int| 0xffu8),
            r@.boot_rom == Seq::new(BOOT_ROM_SIZE as nat, |i: int| 0xffu8),
            r@.boot_rom_enable,
            r@.timer == (Timer { div: 0, tac: 0, tma: 0, tima: 0 }),
            r@.bank == 1,
            r@.buttons == 0xff,
    {
        let mut memory = vec![0xffu8; MEMORY_SIZE];
        memory.set(0xff44, 153);
        let r = Mmu {
            memory,
            rom: vec![0xffu8; ROM_SIZE],
            boot_rom: vec![0xffu8; BOOT_ROM_SIZE],
            boot_rom_enable: true,
            timer: Timer::new(),
            bank: 1,
            buttons: 0xff,
        };
        assert(r@.memory =~= Seq::new(MEMORY_SIZE as nat, |i: int| 0xffu8).update(0xff44, 153u8));
        assert(r@.rom =~= Seq::new(ROM_SIZE as nat, |i: int| 0xffu8));
        assert(r@.boot_rom =~= Seq::new(BOOT_ROM_SIZE as nat, |i: int| 0xffu8));
        r
    }

    /// Copies `data` into the cartridge ROM from offset `base`.
    pub fn load(&mut self, data: &[u8], base: usize)
        requires
            old(self).wf(),
            base + data@.len() <= ROM_SIZE,
        ensures
            final(self).wf(),
            final(self)@ == (MmuView {
                rom: old(self)@.rom.subrange(0, base as int) + data@ + old(self)@.rom.subrange(
                    base + data@.len(),
                    ROM_SIZE as int,
                ),
                ..old(self)@
            }),
    {
        let ghost m0 = self@;
        let mut i: usize = 0;
        while i < data.len()
            invariant
                0 <= i <= data@.len(),
                base + data@.len() <= ROM_SIZE,
                self.wf(),
                self@ == (MmuView { rom: self@.rom, ..m0 }),
                forall|j: int|
                    0 <= j < ROM_SIZE ==> #[trigger] self@.rom[j] == if base <= j < base + i {
                        data@[j - base]
                    } else {
                        m0.rom[j]
                    },
            decreases data@.len() - i,
        {
            self.rom.set(base + i, data[i]);
            i = i + 1;
        }
        assert(self@.rom =~= m0.rom.subrange(0, base as int) + data@ + m0.rom.subrange(
            base + data@.len(),
            ROM_SIZE as int,
        ));
    }

    /// Copies `data`, at most 256 bytes, into the boot ROM from its start.
    pub fn load_boot_rom(&mut self, data: &[u8])
        requires
            old(self).wf(),
            data@.len() <= BOOT_ROM_SIZE,
        ensures
            final(self).wf(),
            final(self)@ == (MmuView {
                boot_rom: data@ + old(self)@.boot_rom.subrange(data@.len() as int, BOOT_ROM_SIZE as int),
                ..old(self)@
            }),
    {
        let ghost m0 = self@;
        let mut i: usize = 0;
        while i < data.len()
            invariant
                0 <= i <= data@.len(),
                data@.len() <= BOOT_ROM_SIZE,
                self.wf(),
                self@ == (MmuView { boot_rom: self@.boot_rom, ..m0 }),
                forall|j: int|
                    0 <= j < BOOT_ROM_SIZE ==> #[trigger] self@.boot_rom[j] == if j < i {
                        data@[j]
                    } else {
                        m0.boot_rom[j]
                    },
            decreases data@.len() - i,
        {
            self.boot_rom.set(i, data[i]);
            i = i + 1;
        }
        assert(self@.boot_rom =~= data@ + m0.boot_rom.subrange(data@.len() as int, BOOT_ROM_SIZE as int));
    }

    /// Raises `irq` in the interrupt flags register IF (0xFF0F).
    pub fn flag_interrupt(&mut self, irq: u8)
        requires
            old(self).wf(),
        ensures
            final(self).wf(),
            final(self)@ == old(self)@.flag_interrupt(irq),
            final(self)@.memory[0xff44] == old(self)@.memory[0xff44],
    {
        proof {
            reveal(MmuView::read);
            reveal(MmuView::write);
        }
        let v = irq | self.read(0xff0f);
        self.write(0xff0f, v);
        assert(self@.memory =~= old(self)@.flag_interrupt(irq).memory);
    }

    /// Advances the timer by `cycles`, raising the timer interrupt when TIMA
    /// overflows.
    pub fn tick(&mut self, cycles: isize)
        requires
            old(self).wf(),
            cycles >= 0,
        ensures
            final(self).wf(),
            final(self)@ == old(self)@.tick(cycles as nat),
            final(self)@.memory[0xff44] == old(self)@.memory[0xff44],
    {
        if self.timer.tick(cycles) {
            self.flag_interrupt(0x04);
        }
    }

    /// Latches the joypad: `buttons` has a set bit for each pressed button,
    /// and is stored inverted.
    pub fn set_buttons(&mut self, buttons: u8)
        requires
            old(self).wf(),
        ensures
            final(self).wf(),
            final(self)@ == (MmuView { buttons: !buttons, ..old(self)@ }),
    {
        self.buttons = !buttons;
    }

    /// Stores the current scan line in LY (0xFF44), which writes through
    /// the memory map leave alone.
    pub fn set_ly(&mut self, ly: u8)
        requires
            old(self).wf(),
        ensures
            final(self).wf(),
            final(self)@ == (MmuView { memory: old(self)@.memory.update(0xff44, ly), ..old(self)@ }),
    {
        self.memory.set(0xff44, ly);
    }
}

/// Raising interrupt flags changes no read but that of IF.
pub proof fn lemma_flag_keeps_reads(m: MmuView, bits: u8, addr: u16)
    requires
        addr != 0xff0f,
        m.wf(),
    ensures
        m.flag_interrupt(bits).read(addr) == m.read(addr),
{
    reveal(MmuView::read);
}

/// Raising the same interrupt flags twice is raising them once.
pub proof fn lemma_flag_twice(m: MmuView, bits: u8)
    requires
        m.wf(),
    ensures
        m.flag_interrupt(bits).flag_interrupt(bits) == m.flag_interrupt(bits),
{
    let x = m.memory[0xff0f];
    assert(bits | (bits | x) == bits | x) by (bit_vector);
    assert(m.flag_interrupt(bits).flag_interrupt(bits).memory =~= m.flag_interrupt(bits).memory);
}

/// Until 0xFF50 is written, address 0 reads the boot ROM; after any write
/// of 0xFF50 it reads the cartridge.
pub proof fn lemma_boot_rom_overlay(m: MmuView, v: u8)
    requires
        m.wf(),
    ensures
        m.boot_rom_enable ==> m.read(0) == m.boot_rom[0],
        m.write(0xff50, v).read(0) == m.rom[0],
        !m.write(0xff50, v).boot_rom_enable,
{
    reveal(MmuView::read);
    reveal(MmuView::write);
}

/// LY (0xFF44) reads what is stored there.
pub proof fn lemma_read_ly(m: MmuView)
    requires
        m.wf(),
    ensures
        m.read(0xff44) == m.memory[0xff44],
{
    reveal(MmuView::read);
}

} // verus!
