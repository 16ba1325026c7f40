//! The debugger: command parsing, breakpoints, and running the machine until
//! a breakpoint, a single step, or the end of a cycle budget.
use vstd::prelude::*;
use crate::assembler::{is_space, number_in_radix, trim, trimmed, u16_from_radix};
use crate::cpu::{Cpu, CpuView};
use crate::lcd::{lcd_height, lcd_pixels, lcd_width, Lcd, Rgba8};
use crate::ppu::{ly_fits, run_for_result, Ppu};

verus! {

/// A debugger command.
#[derive(Clone, Copy, Debug, PartialEq, Eq, Structural)]
pub enum DbgCommand {
    Error,
    Continue,
    SingleStep,
    SetBreakpoint(u16),
    ClearBreakpoint(u16),
    ToggleTrace,
    Quit,
    DumpMemory(u16),
}

/// Index of the first white-space character of `s`, or its length.
pub open spec fn first_space(s: Seq<char>) -> int
    decreases s.len(),
{
    if s.len() == 0 {
        0
    } else if is_space(s[0]) {
        0
    } else {
        1 + first_space(s.drop_first())
    }
}

/// The first word of `s`.
pub open spec fn first_word(s: Seq<char>) -> Seq<char> {
    let t = trim(s);
    t.subrange(0, first_space(t))
}

/// What follows the first word of `s`.
pub open spec fn after_first_word(s: Seq<char>) -> Seq<char> {
    let t = trim(s);
    t.subrange(first_space(t), t.len() as int)
}

/// The command a hex address argument makes, or `Error` without one.
pub open spec fn with_address(rest: Seq<char>, make: spec_fn(u16) -> DbgCommand) -> DbgCommand {
    match number_in_radix(first_word(rest), 16) {
        Some(a) => if first_word(rest).len() > 0 {
            make(a)
        } else {
            DbgCommand::Error
        },
        None => DbgCommand::Error,
    }
}

/// The command that a line of input gives: `c`, `s`, `b addr`, `cl addr`,
/// `t`, `q`, `d addr` (addresses in hex), anything else an error.
pub open spec fn command_of(line: Seq<char>) -> DbgCommand {
    let w = first_word(line);
    let rest = after_first_word(line);
    if w == seq!['c'] {
        DbgCommand::Continue
    } else if w == seq!['s'] {
        DbgCommand::SingleStep
    } else if w == seq!['b'] {
        with_address(rest, |a: u16| DbgCommand::SetBreakpoint(a))
    } else if w == seq!['c', 'l'] {
        with_address(rest, |a: u16| DbgCommand::ClearBreakpoint(a))
    } else if w == seq!['t'] {
        DbgCommand::ToggleTrace
    } else if w == seq!['q'] {
        DbgCommand::Quit
    } else if w == seq!['d'] {
        with_address(rest, |a: u16| DbgCommand::DumpMemory(a))
    } else {
        DbgCommand::Error
    }
}

proof fn lemma_first_space_is(s: Seq<char>, i: int)
    requires
        0 <= i <= s.len(),
        forall|j: int| 0 <= j < i ==> !is_space(#[trigger] s[j]),
        i < s.len() ==> is_space(s[i]),
    ensures
        first_space(s) == i,
    decreases s.len(),
{
    if s.len() > 0 && i > 0 {
        lemma_first_space_is(s.drop_first(), i - 1);
    }
}

/// Splits `s` into its first word and what follows it.
fn split_word(s: &str) -> (r: (&str, &str))
    ensures
        r.0@ == first_word(s@),
        r.1@ == after_first_word(s@),
{
    let t = trimmed(s);
    let n = t.unicode_len();
    let mut i: usize = 0;
    while i < n && !(t.get_char(i) == ' ' || t.get_char(i) == '\t' || t.get_char(i) == '\r'
        || t.get_char(i) == '\n')
        invariant
            n == t@.len(),
            i <= n,
            forall|j: int| 0 <= j < i ==> !is_space(#[trigger] t@[j]),
        decreases n - i,
    {
        i = i + 1;
    }
    proof {
        lemma_first_space_is(t@, i as int);
    }
    (t.substring_char(0, i), t.substring_char(i, n))
}

fn address_word(rest: &str) -> (r: Option<u16>)
    ensures
        r == (match number_in_radix(first_word(rest@), 16) {
            Some(a) => if first_word(rest@).len() > 0 {
                Some(a)
            } else {
                None
            },
            None => None,
        }),
{
    let (w, _) = split_word(rest);
    if w.unicode_len() == 0 {
        return None;
    }
    u16_from_radix(w, 16)
}

fn is_word(w: &str, a: char, b: Option<char>) -> (r: bool)
    ensures
        r == (match b {
            Some(b) => w@ == seq![a, b],
            None => w@ == seq![a],
        }),
{
    let n = w.unicode_len();
    match b {
        Some(b) => {
            let r = n == 2 && w.get_char(0) == a && w.get_char(1) == b;
            assert(r == (w@ == seq![a, b])) by {
                if n == 2 && w@[0] == a && w@[1] == b {
                    assert(w@ =~= seq![a, b]);
                }
            }
            r
        },
        None => {
            let r = n == 1 && w.get_char(0) == a;
            assert(r == (w@ == seq![a])) by {
                if n == 1 && w@[0] == a {
                    assert(w@ =~= seq![a]);
                }
            }
            r
        },
    }
}

/// Parses a line of debugger input; words are separated by the white space
/// that `is_space` names.
pub fn parse_command(line: &String) -> (r: DbgCommand)
    ensures
        r == command_of(line@),
{
    let (w, rest) = split_word(line.as_str());
    if is_word(w, 'c', None) {
        DbgCommand::Continue
    } else if is_word(w, 's', None) {
        DbgCommand::SingleStep
    } else if is_word(w, 'b', None) {
        match address_word(rest) {
            Some(a) => DbgCommand::SetBreakpoint(a),
            None => DbgCommand::Error,
        }
    } else if is_word(w, 'c', Some('l')) {
        match address_word(rest) {
            Some(a) => DbgCommand::ClearBreakpoint(a),
            None => DbgCommand::Error,
        }
    } else if is_word(w, 't', None) {
        DbgCommand::ToggleTrace
    } else if is_word(w, 'q', None) {
        DbgCommand::Quit
    } else if is_word(w, 'd', None) {
        match address_word(rest) {
            Some(a) => DbgCommand::DumpMemory(a),
            None => DbgCommand::Error,
        }
    } else {
        DbgCommand::Error
    }
}

/// What a run of the machine works on: the processor, the pixel unit's
/// registers and the framebuffer's pixels.
pub struct Machine {
    pub cpu: CpuView,
    pub ppu: Ppu,
    pub pixels: Map<(u32, u32), Rgba8>,
}

#[verifier::opaque]
/// One round of the machine: a processor step, the pixel unit for the
/// cycles it took, then the timer for them; and those cycles.
pub open spec fn machine_round(m: Machine, width: u32, height: u32) -> (Machine, int) {
    let (c1, cycles) = m.cpu.step();
    let (p2, mm2, px2) = run_for_result(m.ppu, c1.mmu, m.pixels, width, height, cycles);
    (Machine { cpu: CpuView { mmu: mm2.tick(cycles as nat), ..c1 }, ppu: p2, pixels: px2 }, cycles)
}

/// Rounds from `m` with `total` cycles run so far, until `total` reaches
/// `max`, the next opcode is undefined, a round ends on a breakpoint, or
/// after one round when `single`: the machine, the cycles run, and whether
/// it is still running (stopped only by the budget).
pub open spec fn machine_rounds(
    m: Machine,
    width: u32,
    height: u32,
    single: bool,
    breakpoints: Set<u16>,
    max: int,
    total: int,
) -> (Machine, int, bool)
    decreases (if total < max {
        max - total
    } else {
        0
    }),
{
    if total >= max {
        (m, total, true)
    } else if !m.cpu.can_step() {
        (m, total, false)
    } else {
        let (m2, c) = machine_round(m, width, height);
        if single || breakpoints.contains(m2.cpu.pc) {
            (m2, total + c, false)
        } else if c >= 1 {
            machine_rounds(m2, width, height, single, breakpoints, max, total + c)
        } else {
            (m2, total + c, true)
        }
    }
}

/// A debugger around a processor and a pixel unit.
pub struct Debugger {
    pub cpu: Cpu,
    pub ppu: Ppu,
    pub breakpoints: Vec<u16>,
    pub trace: bool,
    pub running: bool,
}

impl Debugger {
    /// The addresses that stop a run.
    pub open spec fn breakpoints(&self) -> Set<u16> {
        self.breakpoints@.to_set()
    }

    pub open spec fn wf(&self) -> bool {
        self.cpu.wf() && self.ppu.wf() && ly_fits(self.ppu.mode, self.cpu.mmu@.memory[0xff44])
    }

    pub open spec fn machine(&self, lcd: Lcd) -> Machine {
        Machine { cpu: self.cpu@, ppu: self.ppu, pixels: lcd_pixels(lcd) }
    }

    /// A debugger with no breakpoints, tracing on, not running.
    pub fn new(cpu: Cpu, ppu: Ppu) -> (r: Debugger)
        ensures
            r.cpu == cpu,
            r.ppu == ppu,
            r.breakpoints() == Set::<u16>::empty(),
            r.trace,
            !r.running,
    {
        let r = Debugger { cpu, ppu, breakpoints: Vec::new(), trace: true, running: false };
        assert(r.breakpoints@.to_set() =~= Set::<u16>::empty());
        r
    }

    /// Whether `addr` is a breakpoint.
    pub fn has_breakpoint(&self, addr: u16) -> (r: bool)
        ensures
            r == self.breakpoints().contains(addr),
    {
        let mut i: usize = 0;
        while i < self.breakpoints.len()
            invariant
                i <= self.breakpoints@.len(),
                forall|j: int| 0 <= j < i ==> self.breakpoints@[j] != addr,
            decreases self.breakpoints@.len() - i,
        {
            if self.breakpoints[i] == addr {
                assert(self.breakpoints@.to_set().contains(self.breakpoints@[i as int]));
                return true;
            }
            i = i + 1;
        }
        false
    }

    /// Adds a breakpoint at `addr`.
    pub fn set_breakpoint(&mut self, addr: u16)
        ensures
            final(self).breakpoints() == old(self).breakpoints().insert(addr),
            final(self).cpu == old(self).cpu,
            final(self).ppu == old(self).ppu,
            final(self).trace == old(self).trace,
            final(self).running == old(self).running,
    {
        if !self.has_breakpoint(addr) {
            self.breakpoints.push(addr);
            proof {
                old(self).breakpoints@.lemma_push_to_set_commute(addr);
            }
            assert(self.breakpoints@.to_set() =~= old(self).breakpoints@.to_set().insert(addr));
        } else {
            assert(self.breakpoints@.to_set() =~= old(self).breakpoints@.to_set().insert(addr));
        }
    }

    /// Removes the breakpoint at `addr`, if any.
    pub fn clear_breakpoint(&mut self, addr: u16)
        ensures
            final(self).breakpoints() == old(self).breakpoints().remove(addr),
            final(self).cpu == old(self).cpu,
            final(self).ppu == old(self).ppu,
            final(self).trace == old(self).trace,
            final(self).running == old(self).running,
    {
        let ghost b0 = self.breakpoints@;
        let mut kept: Vec<u16> = Vec::new();
        let mut i: usize = 0;
        while i < self.breakpoints.len()
            invariant
                b0 == self.breakpoints@,
                i <= b0.len(),
                kept@.to_set() == b0.subrange(0, i as int).to_set().remove(addr),
            decreases b0.len() - i,
        {
            let x = self.breakpoints[i];
            let ghost k0 = kept@;
            if x != addr {
                kept.push(x);
            }
            proof {
                assert(b0.subrange(0, i + 1) =~= b0.subrange(0, i as int).push(x));
                b0.subrange(0, i as int).lemma_push_to_set_commute(x);
                if x != addr {
                    k0.lemma_push_to_set_commute(x);
                    assert(kept@.to_set() =~= b0.subrange(0, i + 1).to_set().remove(addr));
                } else {
                    assert(kept@.to_set() =~= b0.subrange(0, i + 1).to_set().remove(addr));
                }
            }
            i = i + 1;
        }
        assert(b0.subrange(0, b0.len() as int) =~= b0);
        self.breakpoints = kept;
    }

    /// Runs the machine: a processor step, the pixel unit and the timer for
    /// the cycles it took, until the budget `max_cycles` is spent, a step
    /// ends on a breakpoint, or after one step when `single_step`; an
    /// undefined opcode also stops it. Returns the cycles run.
    pub fn run_to_breakpoint(&mut self, lcd: &mut Lcd, single_step: bool, max_cycles: isize) -> (total: isize)
        requires
            old(self).wf(),
            max_cycles <= 0x1000_0000,
        ensures
            ({
                let r = machine_rounds(
                    old(self).machine(*old(lcd)),
                    lcd_width(*old(lcd)),
                    lcd_height(*old(lcd)),
                    single_step,
                    old(self).breakpoints(),
                    max_cycles as int,
                    0,
                );
                &&& final(self).machine(*final(lcd)) == r.0
                &&& total == r.1
                &&& final(self).running == r.2
            }),
            final(self).wf(),
            final(self).breakpoints() == old(self).breakpoints(),
            final(self).trace == old(self).trace,
            0 <= total,
            lcd_width(*final(lcd)) == lcd_width(*old(lcd)),
            lcd_height(*final(lcd)) == lcd_height(*old(lcd)),
    {
        let ghost w = lcd_width(*lcd);
        let ghost h = lcd_height(*lcd);
        let ghost bps = self.breakpoints();
        let ghost goal = machine_rounds(self.machine(*lcd), w, h, single_step, bps, max_cycles as int, 0);
        let mut total_cycles: isize = 0;
        self.running = true;
        if max_cycles <= 0 {
            return 0;
        }
        while total_cycles < max_cycles
            invariant
                self.wf(),
                self.breakpoints() == bps,
                bps == old(self).breakpoints(),
                self.trace == old(self).trace,
                self.running,
                0 <= total_cycles < max_cycles + 44,
                max_cycles <= 0x1000_0000,
                w == lcd_width(*lcd) == lcd_width(*old(lcd)),
                h == lcd_height(*lcd) == lcd_height(*old(lcd)),
                goal == machine_rounds(old(self).machine(*old(lcd)), w, h, single_step, bps, max_cycles as int, 0),
                machine_rounds(self.machine(*lcd), w, h, single_step, bps, max_cycles as int, total_cycles as int)
                    == goal,
            decreases max_cycles + 44 - total_cycles,
        {
            if !self.cpu.can_step() {
                self.running = false;
                return total_cycles;
            }
            let ghost before = self.machine(*lcd);
            let cycles = self.cpu.step();
            total_cycles = total_cycles + cycles;
            self.ppu.run_for(&mut self.cpu.mmu, lcd, cycles);
            self.cpu.mmu.tick(cycles);
            assert(self.machine(*lcd) == machine_round(before, w, h).0 && cycles == machine_round(
                before,
                w,
                h,
            ).1) by {
                reveal(machine_round);
            }
            if single_step || self.has_breakpoint(self.cpu.pc) {
                self.running = false;
                return total_cycles;
            }
        }
        total_cycles
    }

    /// Carries out a parsed command: `c` runs, `s` runs one step, `b` and
    /// `cl` set and clear breakpoints, `t` toggles tracing; the others leave
    /// the debugger as it is. Returns the cycles run.
    pub fn apply_command(&mut self, cmd: DbgCommand, lcd: &mut Lcd, max_cycles: isize) -> (r: isize)
        requires
            old(self).wf(),
            max_cycles <= 0x1000_0000,
        ensures
            final(self).wf(),
            0 <= r,
            lcd_width(*final(lcd)) == lcd_width(*old(lcd)),
            lcd_height(*final(lcd)) == lcd_height(*old(lcd)),
            match cmd {
                DbgCommand::Continue | DbgCommand::SingleStep => {
                    let run = machine_rounds(
                        old(self).machine(*old(lcd)),
                        lcd_width(*old(lcd)),
                        lcd_height(*old(lcd)),
                        cmd == DbgCommand::SingleStep,
                        old(self).breakpoints(),
                        max_cycles as int,
                        0,
                    );
                    &&& final(self).machine(*final(lcd)) == run.0
                    &&& r == run.1
                    &&& final(self).running == run.2
                    &&& final(self).breakpoints() == old(self).breakpoints()
                    &&& final(self).trace == old(self).trace
                },
                _ => r == 0 && final(self).cpu == old(self).cpu && final(self).ppu == old(self).ppu
                    && final(self).running == old(self).running && *final(lcd) == *old(lcd),
            },
            match cmd {
                DbgCommand::SetBreakpoint(a) => final(self).breakpoints() == old(self).breakpoints().insert(a)
                    && final(self).trace == old(self).trace,
                DbgCommand::ClearBreakpoint(a) => final(self).breakpoints() == old(self).breakpoints().remove(a)
                    && final(self).trace == old(self).trace,
                DbgCommand::ToggleTrace => final(self).breakpoints() == old(self).breakpoints()
                    && final(self).trace == !old(self).trace,
                DbgCommand::Continue | DbgCommand::SingleStep => true,
                _ => final(self).breakpoints() == old(self).breakpoints() && final(self).trace == old(self).trace,
            },
    {
        match cmd {
            DbgCommand::Continue => self.run_to_breakpoint(lcd, false, max_cycles),
            DbgCommand::SingleStep => self.run_to_breakpoint(lcd, true, max_cycles),
            DbgCommand::SetBreakpoint(addr) => {
                self.set_breakpoint(addr);
                0
            },
            DbgCommand::ClearBreakpoint(addr) => {
                self.clear_breakpoint(addr);
                0
            },
            DbgCommand::ToggleTrace => {
                self.trace = !self.trace;
                0
            },
            _ => 0,
        }
    }
}

} // verus!
