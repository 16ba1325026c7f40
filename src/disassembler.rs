//! The disassembler: a linear sweep over machine code with the instruction
//! table, and the jump targets it reaches.
use vstd::prelude::*;
use crate::cpu::signed8;
use crate::instructions::{instruction, instruction_at, lemma_instruction_length, Operation};

verus! {

/// One decoded instruction.
#[derive(Clone, Copy, Debug, PartialEq, Eq, Structural)]
pub struct Line {
    /// Offset of its first byte.
    pub pos: usize,
    /// Its index in the instruction table.
    pub index: u16,
    /// Its length in bytes.
    pub length: u8,
    /// Its operand: the byte after the opcode, or the little-endian word
    /// after it; zero when it has none.
    pub operand: u16,
    /// Whether it is a jump with an operand, and then its target.
    pub has_target: bool,
    pub target: i64,
    /// Whether some jump in the code targets it.
    pub labelled: bool,
}

/// The table index of the instruction at `pos`, if its opcode bytes are there.
pub open spec fn index_at(data: Seq<u8>, pos: int) -> Option<int> {
    if instruction_at(data[pos] as int).operation == Operation::Prefix {
        if pos + 1 < data.len() {
            Some(256 + data[pos + 1])
        } else {
            None
        }
    } else {
        Some(data[pos] as int)
    }
}

/// The line for the instruction at `pos` (not yet labelled), if it lies
/// wholly in `data`.
pub open spec fn line_at(data: Seq<u8>, pos: int) -> Option<Line> {
    match index_at(data, pos) {
        None => None,
        Some(index) => {
            let instr = instruction_at(index);
            let len = instr.length as int;
            if pos + len > data.len() {
                None
            } else {
                let operand: u16 = if index >= 256 || len == 1 {
                    0
                } else if len == 2 {
                    data[pos + 1] as u16
                } else {
                    (data[pos + 1] + data[pos + 2] * 256) as u16
                };
                let is_jump = instr.operation is Jump && index < 256 && len >= 2;
                let target: int = if !is_jump {
                    0
                } else if len == 3 {
                    operand as int
                } else {
                    pos + 2 + signed8(operand as u8)
                };
                Some(
                    Line {
                        pos: pos as usize,
                        index: index as u16,
                        length: len as u8,
                        operand,
                        has_target: is_jump,
                        target: target as i64,
                        labelled: false,
                    },
                )
            }
        },
    }
}

/// The lines of a linear sweep from `pos`, up to the end or to an
/// instruction cut off by the end.
pub open spec fn sweep(data: Seq<u8>, pos: int) -> Seq<Line>
    decreases data.len() - pos,
{
    if pos < 0 || pos >= data.len() {
        Seq::empty()
    } else {
        match line_at(data, pos) {
            None => Seq::empty(),
            Some(l) => if l.length >= 1 {
                seq![l] + sweep(data, pos + l.length)
            } else {
                Seq::empty()
            },
        }
    }
}

/// Whether some line of `lines` jumps to `pos`.
pub open spec fn is_target(lines: Seq<Line>, pos: int) -> bool {
    exists|i: int| 0 <= i < lines.len() && #[trigger] lines[i].has_target && lines[i].target == pos
}

/// The disassembly of `data`: the sweep from offset 0, each line marked when
/// a jump targets it.
pub open spec fn disassembly(data: Seq<u8>) -> Seq<Line> {
    let lines = sweep(data, 0);
    Seq::new(lines.len(), |i: int| Line { labelled: is_target(lines, lines[i].pos as int), ..lines[i] })
}

proof fn lemma_sweep_positions(data: Seq<u8>, pos: int)
    requires
        0 <= pos,
        data.len() < 0x1_0000_0000,
    ensures
        forall|i: int|
            0 <= i < sweep(data, pos).len() ==> pos <= #[trigger] sweep(data, pos)[i].pos < data.len(),
    decreases data.len() - pos,
{
    if pos < data.len() {
        match line_at(data, pos) {
            None => {},
            Some(l) => if l.length >= 1 {
                lemma_sweep_positions(data, pos + l.length);
                let s = sweep(data, pos);
                assert(s[0] == l);
                assert forall|i: int| 0 <= i < s.len() implies pos <= #[trigger] s[i].pos < data.len() by {
                    if i > 0 {
                        assert(s[i] == sweep(data, pos + l.length)[i - 1]);
                    }
                }
            },
        }
    }
}

fn decode_at(data: &[u8], pos: usize) -> (r: Option<Line>)
    requires
        pos < data@.len(),
        data@.len() < 0x1_0000_0000,
    ensures
        r == line_at(data@, pos as int),
{
    let first = instruction(data[pos] as u16);
    let index: u16 = if first.operation == Operation::Prefix {
        if pos + 1 < data.len() {
            256 + data[pos + 1] as u16
        } else {
            return None;
        }
    } else {
        data[pos] as u16
    };
    let instr = instruction(index);
    let len = instr.length as usize;
    if len > data.len() - pos {
        return None;
    }
    let operand: u16 = if index >= 256 || len == 1 {
        0
    } else if len == 2 {
        data[pos + 1] as u16
    } else {
        data[pos + 1] as u16 + data[pos + 2] as u16 * 256
    };
    let is_jump = match instr.operation {
        Operation::Jump { .. } => index < 256 && len >= 2,
        _ => false,
    };
    let target: i64 = if !is_jump {
        0
    } else if len == 3 {
        operand as i64
    } else {
        let o = operand as u8;
        let off: i64 = if o < 128 {
            o as i64
        } else {
            o as i64 - 256
        };
        pos as i64 + 2 + off
    };
    Some(
        Line {
            pos,
            index,
            length: len as u8,
            operand,
            has_target: is_jump,
            target,
            labelled: false,
        },
    )
}

/// Disassembles `data` (at most 4 GiB) by a linear sweep, and marks the
/// lines that jumps target.
pub fn disassemble(data: &[u8]) -> (r: Vec<Line>)
    requires
        data@.len() < 0x1_0000_0000,
    ensures
        r@ == disassembly(data@),
{
    let ghost all = sweep(data@, 0);
    let mut lines: Vec<Line> = Vec::new();
    let mut pos: usize = 0;
    let mut done = false;
    while !done && pos < data.len()
        invariant
            pos <= data@.len() < 0x1_0000_0000,
            lines@ + sweep(data@, pos as int) == all,
            done ==> sweep(data@, pos as int) == Seq::<Line>::empty(),
        decreases data@.len() - pos + if done {
            0int
        } else {
            1int
        },
    {
        proof {
            let idx = if instruction_at(data@[pos as int] as int).operation == Operation::Prefix {
                256 + data@[pos as int + 1]
            } else {
                data@[pos as int] as int
            };
            lemma_instruction_length(data@[pos as int] as int);
            if pos + 1 < data@.len() {
                lemma_instruction_length(256 + data@[pos as int + 1]);
            }
        }
        match decode_at(data, pos) {
            None => {
                assert(sweep(data@, pos as int) =~= Seq::<Line>::empty());
                done = true;
            },
            Some(l) => {
                let ghost before = lines@;
                lines.push(l);
                assert(lines@ + sweep(data@, pos + l.length) =~= before + sweep(data@, pos as int));
                pos = pos + l.length as usize;
            },
        }
    }
    proof {
        if pos >= data@.len() {
            assert(sweep(data@, pos as int) =~= Seq::<Line>::empty());
        }
        assert(lines@ + Seq::<Line>::empty() =~= lines@);
    }
    proof {
        lemma_sweep_positions(data@, 0);
    }
    let n = data.len();
    let mut marks: Vec<bool> = Vec::new();
    let mut j: usize = 0;
    while j < n
        invariant
            n == data@.len(),
            j <= n,
            marks@.len() == j,
            forall|q: int| 0 <= q < j ==> marks@[q] == false,
        decreases n - j,
    {
        marks.push(false);
        j = j + 1;
    }
    let mut k: usize = 0;
    while k < lines.len()
        invariant
            lines@ == all,
            n == data@.len() < 0x1_0000_0000,
            marks@.len() == n,
            k <= lines@.len(),
            forall|q: int|
                0 <= q < n ==> (marks@[q] <==> exists|i: int|
                    0 <= i < k && #[trigger] all[i].has_target && all[i].target == q),
        decreases lines@.len() - k,
    {
        let l = lines[k];
        if l.has_target && 0 <= l.target && l.target < n as i64 {
            marks.set(l.target as usize, true);
        }
        proof {
            assert forall|q: int| 0 <= q < n implies (marks@[q] <==> exists|i: int|
                0 <= i < k + 1 && #[trigger] all[i].has_target && all[i].target == q) by {
                if marks@[q] && !(l.has_target && l.target == q) {
                    let i = choose|i: int| 0 <= i < k && #[trigger] all[i].has_target && all[i].target == q;
                    assert(0 <= i < k + 1 && all[i].has_target && all[i].target == q);
                }
                if exists|i: int| 0 <= i < k + 1 && #[trigger] all[i].has_target && all[i].target == q {
                    let i = choose|i: int| 0 <= i < k + 1 && #[trigger] all[i].has_target && all[i].target == q;
                    if i < k {
                        assert(exists|i2: int| 0 <= i2 < k && #[trigger] all[i2].has_target && all[i2].target == q);
                    }
                }
            }
        }
        k = k + 1;
    }
    let mut out: Vec<Line> = Vec::new();
    let mut m: usize = 0;
    while m < lines.len()
        invariant
            lines@ == all,
            all == sweep(data@, 0),
            n == data@.len(),
            marks@.len() == n,
            m <= lines@.len(),
            forall|q: int|
                0 <= q < n ==> (marks@[q] <==> exists|i: int|
                    0 <= i < lines@.len() && #[trigger] all[i].has_target && all[i].target == q),
            forall|i: int| 0 <= i < all.len() ==> #[trigger] all[i].pos < n,
            out@ == disassembly(data@).subrange(0, m as int),
        decreases lines@.len() - m,
    {
        let mut l = lines[m];
        l.labelled = marks[l.pos];
        assert(l == (Line { labelled: is_target(all, all[m as int].pos as int), ..all[m as int] }));
        out.push(l);
        proof {
            let d = disassembly(data@);
            assert(d.len() == all.len());
            assert(d[m as int] == l);
            assert(out@ =~= d.subrange(0, m + 1));
        }
        m = m + 1;
    }
    assert(out@ =~= disassembly(data@));
    out
}

/// The bytes that encode a decoded line.
pub open spec fn line_bytes(l: Line) -> Seq<u8> {
    if l.index >= 256 {
        seq![0xcbu8, (l.index - 256) as u8]
    } else if l.length == 1 {
        seq![l.index as u8]
    } else if l.length == 2 {
        seq![l.index as u8, l.operand as u8]
    } else {
        seq![l.index as u8, (l.operand % 256) as u8, (l.operand / 256) as u8]
    }
}

/// The bytes that encode a list of lines, one after the other.
pub open spec fn lines_bytes(lines: Seq<Line>) -> Seq<u8>
    decreases lines.len(),
{
    if lines.len() == 0 {
        Seq::empty()
    } else {
        line_bytes(lines[0]) + lines_bytes(lines.drop_first())
    }
}

#[verifier::rlimit(50)]
proof fn lemma_line_bytes(data: Seq<u8>, pos: int)
    requires
        0 <= pos < data.len() < 0x1_0000_0000,
        line_at(data, pos) is Some,
    ensures
        ({
            let l = line_at(data, pos).unwrap();
            &&& 1 <= l.length
            &&& pos + l.length <= data.len()
            &&& line_bytes(l) == data.subrange(pos, pos + l.length)
        }),
{
    lemma_instruction_length(data[pos] as int);
    if pos + 1 < data.len() {
        lemma_instruction_length(256 + data[pos + 1]);
    }
    let l = line_at(data, pos).unwrap();
    let n = l.length as int;
    if l.index < 256 && n == 3 {
        let w = data[pos + 1] + data[pos + 2] * 256;
        vstd::arithmetic::div_mod::lemma_fundamental_div_mod_converse(
            w,
            256,
            data[pos + 2] as int,
            data[pos + 1] as int,
        );
    }
    assert(line_bytes(l) =~= data.subrange(pos, pos + n));
}

proof fn lemma_sweep_bytes(data: Seq<u8>, pos: int)
    requires
        0 <= pos,
        data.len() < 0x1_0000_0000,
    ensures
        pos <= data.len() ==> pos + lines_bytes(sweep(data, pos)).len() <= data.len(),
        pos <= data.len() ==> lines_bytes(sweep(data, pos)) == data.subrange(
            pos,
            pos + lines_bytes(sweep(data, pos)).len(),
        ),
    decreases data.len() - pos,
{
    if pos < data.len() {
        match line_at(data, pos) {
            None => {
                assert(data.subrange(pos, pos) =~= Seq::<u8>::empty());
            },
            Some(l) => {
                lemma_line_bytes(data, pos);
                let n = l.length as int;
                lemma_sweep_bytes(data, pos + n);
                let rest = lines_bytes(sweep(data, pos + n));
                assert(sweep(data, pos).drop_first() =~= sweep(data, pos + n));
                assert(data.subrange(pos, pos + n + rest.len()) =~= data.subrange(pos, pos + n)
                    + data.subrange(pos + n, pos + n + rest.len()));
            },
        }
    } else if pos == data.len() {
        assert(data.subrange(pos, pos) =~= Seq::<u8>::empty());
    }
}

proof fn lemma_lines_bytes_same(a: Seq<Line>, b: Seq<Line>)
    requires
        a.len() == b.len(),
        forall|i: int| 0 <= i < a.len() ==> line_bytes(#[trigger] a[i]) == line_bytes(b[i]),
    ensures
        lines_bytes(a) == lines_bytes(b),
    decreases a.len(),
{
    if a.len() > 0 {
        assert forall|i: int| 0 <= i < a.drop_first().len() implies line_bytes(
            #[trigger] a.drop_first()[i],
        ) == line_bytes(b.drop_first()[i]) by {
            assert(a.drop_first()[i] == a[i + 1]);
            assert(line_bytes(a[i + 1]) == line_bytes(b[i + 1]));
        }
        lemma_lines_bytes_same(a.drop_first(), b.drop_first());
    }
}

/// Re-encoding the disassembled lines gives back exactly the bytes they were
/// read from: all of the code, unless it ends inside an instruction.
pub proof fn lemma_disassembly_round_trip(data: Seq<u8>)
    requires
        data.len() < 0x1_0000_0000,
    ensures
        lines_bytes(disassembly(data)).len() <= data.len(),
        lines_bytes(disassembly(data)) == data.subrange(0, lines_bytes(disassembly(data)).len() as int),
{
    lemma_sweep_bytes(data, 0);
    let lines = sweep(data, 0);
    let d = disassembly(data);
    assert forall|i: int| 0 <= i < d.len() implies line_bytes(#[trigger] d[i]) == line_bytes(lines[i]) by {
        assert(d[i] == Line { labelled: is_target(lines, lines[i].pos as int), ..lines[i] });
    }
    lemma_lines_bytes_same(d, lines);
}

} // verus!
