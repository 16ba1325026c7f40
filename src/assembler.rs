//! The assembler: operand and mnemonic parsing, and the two passes that
//! turn source lines into machine code.
use vstd::prelude::*;
use vstd::string::*;

verus! {

/// The characters of `s`.
pub fn chars_of(s: &str) -> (r: Vec<char>)
    ensures
        r@ == s@,
{
    let n = s.unicode_len();
    let mut v: Vec<char> = Vec::new();
    let mut i: usize = 0;
    while i < n
        invariant
            n == s@.len(),
            i <= n,
            v@ == s@.subrange(0, i as int),
        decreases n - i,
    {
        v.push(s.get_char(i));
        i = i + 1;
    }
    assert(v@ =~= s@);
    v
}

/// Whether `a` holds exactly the characters `b`.
pub fn eq_chars(a: &[char], b: &[char]) -> (r: bool)
    ensures
        r == (a@ == b@),
{
    if a.len() != b.len() {
        return false;
    }
    let mut i: usize = 0;
    while i < a.len()
        invariant
            a@.len() == b@.len(),
            i <= a@.len(),
            a@.subrange(0, i as int) == b@.subrange(0, i as int),
        decreases a@.len() - i,
    {
        if a[i] != b[i] {
            assert(a@[i as int] != b@[i as int]);
            return false;
        }
        assert(a@.subrange(0, i + 1) =~= a@.subrange(0, i as int).push(a@[i as int]));
        assert(b@.subrange(0, i + 1) =~= b@.subrange(0, i as int).push(b@[i as int]));
        i = i + 1;
    }
    assert(a@ =~= a@.subrange(0, a@.len() as int));
    assert(b@ =~= b@.subrange(0, b@.len() as int));
    true
}

/// Whether `a` is the single character `ch`.
pub fn is_char(a: &[char], ch: char) -> (r: bool)
    ensures
        r == (a@ == seq![ch]),
{
    if a.len() == 1 {
        assert(a@ == seq![ch] <==> a@[0] == ch) by {
            if a@[0] == ch {
                assert(a@ =~= seq![ch]);
            }
        }
        a[0] == ch
    } else {
        false
    }
}

/// The value of digit `c` (`0-9`, `a-z`, `A-Z`), or 99 for any other character.
pub open spec fn digit_of(c: char) -> int {
    if '0' <= c <= '9' {
        c as int - '0' as int
    } else if 'a' <= c <= 'z' {
        c as int - 'a' as int + 10
    } else if 'A' <= c <= 'Z' {
        c as int - 'A' as int + 10
    } else {
        99
    }
}

/// The value of the digit string `s` in `radix`.
pub open spec fn digits_value(s: Seq<char>, radix: int) -> int
    decreases s.len(),
{
    if s.len() == 0 {
        0
    } else {
        digits_value(s.drop_last(), radix) * radix + digit_of(s.last())
    }
}

/// The number that `s` writes in `radix`, if it fits 16 bits: an optional
/// `+`, then one or more digits of the radix.
#[verifier::opaque]
pub open spec fn number_in_radix(s: Seq<char>, radix: int) -> Option<u16> {
    let d = if s.len() > 0 && s[0] == '+' {
        s.drop_first()
    } else {
        s
    };
    if d.len() > 0 && (forall|i: int| 0 <= i < d.len() ==> #[trigger] digit_of(d[i]) < radix)
        && digits_value(d, radix) < 65536 {
        Some(digits_value(d, radix) as u16)
    } else {
        None
    }
}

/// Relies on `u16::from_str_radix`: it accepts an optional `+` followed by
/// one or more digits of the radix whose value fits 16 bits, and refuses
/// anything else; it panics only for a radix outside `2..=36`.
#[verifier::external_body]
pub(crate) fn u16_from_radix(s: &str, radix: u32) -> (r: Option<u16>)
    requires
        2 <= radix <= 36,
    ensures
        r == number_in_radix(s@, radix as int),
{
    u16::from_str_radix(s, radix).ok()
}

/// The 16-bit literal that `s` writes: `$` or `0x` before hex digits, a
/// leading `0` before octal digits, else decimal.
pub open spec fn imm16_value(s: Seq<char>) -> Option<u16> {
    if s.len() >= 1 && s[0] == '$' {
        number_in_radix(s.subrange(1, s.len() as int), 16)
    } else if s.len() >= 2 && s[0] == '0' && s[1] == 'x' {
        number_in_radix(s.subrange(2, s.len() as int), 16)
    } else if s.len() >= 1 && s[0] == '0' {
        number_in_radix(s, 8)
    } else {
        number_in_radix(s, 10)
    }
}

/// The 8-bit literal that `s` writes.
pub open spec fn imm8_value(s: Seq<char>) -> Option<u8> {
    match imm16_value(s) {
        Some(v) => if v < 256 {
            Some(v as u8)
        } else {
            None
        },
        None => None,
    }
}

/// Parses a 16-bit literal.
pub fn imm16(src: &str) -> (r: Option<u16>)
    ensures
        r == imm16_value(src@),
{
    let n = src.unicode_len();
    if n >= 1 && src.get_char(0) == '$' {
        u16_from_radix(src.substring_char(1, n), 16)
    } else if n >= 2 && src.get_char(0) == '0' && src.get_char(1) == 'x' {
        u16_from_radix(src.substring_char(2, n), 16)
    } else if n >= 1 && src.get_char(0) == '0' {
        u16_from_radix(src, 8)
    } else {
        u16_from_radix(src, 10)
    }
}

/// Parses an 8-bit literal.
pub fn imm8(src: &str) -> (r: Option<u8>)
    ensures
        r == imm8_value(src@),
{
    match imm16(src) {
        Some(v) => if v < 256 {
            Some(v as u8)
        } else {
            None
        },
        None => None,
    }
}

/// The code of an 8-bit register name, as the opcodes number them.
pub open spec fn reg8_code(s: Seq<char>) -> Option<u8> {
    if s == seq!['B'] {
        Some(0)
    } else if s == seq!['C'] {
        Some(1)
    } else if s == seq!['D'] {
        Some(2)
    } else if s == seq!['E'] {
        Some(3)
    } else if s == seq!['H'] {
        Some(4)
    } else if s == seq!['L'] {
        Some(5)
    } else if s == seq!['(', 'H', 'L', ')'] {
        Some(6)
    } else if s == seq!['A'] {
        Some(7)
    } else {
        None
    }
}

/// The opcode offset of a register-indirect operand `(BC) (DE) (HL+) (HL-)`.
pub open spec fn reg8ind_code(s: Seq<char>) -> Option<u8> {
    if s == seq!['(', 'B', 'C', ')'] {
        Some(0)
    } else if s == seq!['(', 'D', 'E', ')'] {
        Some(0x10)
    } else if s == seq!['(', 'H', 'L', '+', ')'] {
        Some(0x20)
    } else if s == seq!['(', 'H', 'L', '-', ')'] {
        Some(0x30)
    } else {
        None
    }
}

/// The opcode offset of a register pair.
pub open spec fn reg16_code(s: Seq<char>) -> Option<u8> {
    if s == seq!['B', 'C'] {
        Some(0)
    } else if s == seq!['D', 'E'] {
        Some(0x10)
    } else if s == seq!['H', 'L'] {
        Some(0x20)
    } else if s == seq!['S', 'P'] || s == seq!['A', 'F'] {
        Some(0x30)
    } else {
        None
    }
}

fn reg8_of(c: &[char]) -> (r: Option<u8>)
    ensures
        r == reg8_code(c@),
{
    if is_char(c, 'B') {
        Some(0)
    } else if is_char(c, 'C') {
        Some(1)
    } else if is_char(c, 'D') {
        Some(2)
    } else if is_char(c, 'E') {
        Some(3)
    } else if is_char(c, 'H') {
        Some(4)
    } else if is_char(c, 'L') {
        Some(5)
    } else if eq_chars(c, &['(', 'H', 'L', ')']) {
        Some(6)
    } else if is_char(c, 'A') {
        Some(7)
    } else {
        None
    }
}

/// Parses an 8-bit register name.
pub fn reg8(name: &str) -> (r: Option<u8>)
    ensures
        r == reg8_code(name@),
{
    let c = chars_of(name);
    reg8_of(c.as_slice())
}

/// Parses a register-indirect operand.
pub fn reg8ind(name: &str) -> (r: Option<u8>)
    ensures
        r == reg8ind_code(name@),
{
    let c = chars_of(name);
    if eq_chars(c.as_slice(), &['(', 'B', 'C', ')']) {
        Some(0)
    } else if eq_chars(c.as_slice(), &['(', 'D', 'E', ')']) {
        Some(0x10)
    } else if eq_chars(c.as_slice(), &['(', 'H', 'L', '+', ')']) {
        Some(0x20)
    } else if eq_chars(c.as_slice(), &['(', 'H', 'L', '-', ')']) {
        Some(0x30)
    } else {
        None
    }
}

/// Parses a register pair name.
pub fn reg16(name: &str) -> (r: Option<u8>)
    ensures
        r == reg16_code(name@),
{
    let c = chars_of(name);
    if eq_chars(c.as_slice(), &['B', 'C']) {
        Some(0)
    } else if eq_chars(c.as_slice(), &['D', 'E']) {
        Some(0x10)
    } else if eq_chars(c.as_slice(), &['H', 'L']) {
        Some(0x20)
    } else if eq_chars(c.as_slice(), &['S', 'P']) || eq_chars(c.as_slice(), &['A', 'F']) {
        Some(0x30)
    } else {
        None
    }
}

/// The address that an absolute indirect operand `(nnnn)` names.
pub open spec fn addr16_value(s: Seq<char>) -> Option<u16> {
    if s.len() >= 2 && s[0] == '(' && s.last() == ')' {
        imm16_value(s.subrange(1, s.len() - 1))
    } else {
        None
    }
}

/// Parses an absolute indirect operand `(nnnn)`.
pub fn addr16(arg: &str) -> (r: Option<u16>)
    ensures
        r == addr16_value(arg@),
{
    let n = arg.unicode_len();
    if n >= 2 && arg.get_char(0) == '(' && arg.get_char(n - 1) == ')' {
        imm16(arg.substring_char(1, n - 1))
    } else {
        None
    }
}

/// The position of the only `+` in `s`, if it has exactly one.
pub open spec fn single_plus(s: Seq<char>) -> Option<int> {
    if exists|p: int|
        0 <= p < s.len() && s[p] == '+' && (forall|q: int|
            0 <= q < s.len() && q != p ==> #[trigger] s[q] != '+') {
        Some(
            choose|p: int|
                0 <= p < s.len() && s[p] == '+' && (forall|q: int|
                    0 <= q < s.len() && q != p ==> #[trigger] s[q] != '+'),
        )
    } else {
        None
    }
}

/// The text after `($FF00+` and before `)` of a high-page operand.
pub open spec fn high_page_inner(s: Seq<char>) -> Option<Seq<char>> {
    match single_plus(s) {
        Some(p) => {
            let left = s.subrange(0, p);
            let right = s.subrange(p + 1, s.len() as int);
            if left.len() >= 1 && left[0] == '(' && right.len() >= 1 && right.last() == ')'
                && imm16_value(left.subrange(1, left.len() as int)) == Some(0xff00u16) {
                Some(right.subrange(0, right.len() - 1))
            } else {
                None
            }
        },
        None => None,
    }
}

fn find_single_plus(s: &str) -> (r: Option<usize>)
    ensures
        r matches Some(p) ==> single_plus(s@) == Some(p as int),
        r is None ==> single_plus(s@) is None,
{
    let n = s.unicode_len();
    let mut found: Option<usize> = None;
    let mut count: usize = 0;
    let mut i: usize = 0;
    while i < n
        invariant
            n == s@.len(),
            i <= n,
            count <= i,
            count == 0 ==> found is None && forall|q: int| 0 <= q < i ==> #[trigger] s@[q] != '+',
            count == 1 ==> (found matches Some(p) && p < i && s@[p as int] == '+' && forall|q: int|
                0 <= q < i && q != p ==> #[trigger] s@[q] != '+'),
            count >= 2 ==> exists|p1: int, p2: int|
                0 <= p1 < p2 < i && #[trigger] s@[p1] == '+' && #[trigger] s@[p2] == '+',
        decreases n - i,
    {
        if s.get_char(i) == '+' {
            if count == 0 {
                found = Some(i);
                count = 1;
            } else if count == 1 {
                let ghost p1 = found.unwrap() as int;
                assert(0 <= p1 < i && s@[p1] == '+' && s@[i as int] == '+');
                count = 2;
            }
        }
        i = i + 1;
    }
    if count == 1 {
        let p = found.unwrap();
        assert(single_plus(s@) == Some(p as int)) by {
            let w = p as int;
            assert(0 <= w < s@.len() && s@[w] == '+' && forall|q: int|
                0 <= q < s@.len() && q != w ==> #[trigger] s@[q] != '+');
            let c = choose|x: int|
                0 <= x < s@.len() && s@[x] == '+' && (forall|q: int|
                    0 <= q < s@.len() && q != x ==> #[trigger] s@[q] != '+');
            assert(c == w);
        }
        Some(p)
    } else {
        if count >= 2 {
            assert(single_plus(s@) is None) by {
                let (p1, p2) = choose|p1: int, p2: int|
                    0 <= p1 < p2 < n && #[trigger] s@[p1] == '+' && #[trigger] s@[p2] == '+';
                assert forall|p: int|
                    !(0 <= p < s@.len() && s@[p] == '+' && (forall|q: int|
                        0 <= q < s@.len() && q != p ==> #[trigger] s@[q] != '+')) by {
                    if 0 <= p < s@.len() && s@[p] == '+' {
                        if p != p1 {
                            assert(s@[p1] == '+');
                        } else {
                            assert(s@[p2] == '+');
                        }
                    }
                }
            }
        }
        None
    }
}

fn high_page(arg: &str) -> (r: Option<&str>)
    ensures
        r matches Some(inner) ==> high_page_inner(arg@) == Some(inner@),
        r is None ==> high_page_inner(arg@) is None,
{
    match find_single_plus(arg) {
        Some(p) => {
            let n = arg.unicode_len();
            let left = arg.substring_char(0, p);
            let right = arg.substring_char(p + 1, n);
            let ln = left.unicode_len();
            let rn = right.unicode_len();
            if ln >= 1 && left.get_char(0) == '(' && rn >= 1 && right.get_char(rn - 1) == ')' {
                if imm16(left.substring_char(1, ln)) == Some(0xff00u16) {
                    Some(right.substring_char(0, rn - 1))
                } else {
                    None
                }
            } else {
                None
            }
        },
        None => None,
    }
}

/// Parses a high-page operand `($FF00+n)`.
pub fn addr8(arg: &str) -> (r: Option<u8>)
    ensures
        r == (match high_page_inner(arg@) {
            Some(inner) => imm8_value(inner),
            None => None,
        }),
{
    match high_page(arg) {
        Some(inner) => imm8(inner),
        None => None,
    }
}

/// Parses a high-page register operand `($FF00+C)`.
pub fn addr8ind(arg: &str) -> (r: Option<u8>)
    ensures
        r == (match high_page_inner(arg@) {
            Some(inner) => reg8_code(inner),
            None => None,
        }),
{
    match high_page(arg) {
        Some(inner) => reg8(inner),
        None => None,
    }
}

/// A parsed operand.
pub enum Argument {
    Reg8(u8),
    Reg8Ind(u8),
    Reg16(u8),
    Imm(u16),
    Addr16(u16),
    Addr8(u8),
    Addr8Ind(u8),
    Label(Vec<char>),
}

/// What a parsed operand holds.
pub enum ArgumentView {
    Reg8(u8),
    Reg8Ind(u8),
    Reg16(u8),
    Imm(u16),
    Addr16(u16),
    Addr8(u8),
    Addr8Ind(u8),
    Label(Seq<char>),
}

impl View for Argument {
    type V = ArgumentView;

    open spec fn view(&self) -> ArgumentView {
        match self {
            Argument::Reg8(r) => ArgumentView::Reg8(*r),
            Argument::Reg8Ind(r) => ArgumentView::Reg8Ind(*r),
            Argument::Reg16(r) => ArgumentView::Reg16(*r),
            Argument::Imm(i) => ArgumentView::Imm(*i),
            Argument::Addr16(a) => ArgumentView::Addr16(*a),
            Argument::Addr8(a) => ArgumentView::Addr8(*a),
            Argument::Addr8Ind(a) => ArgumentView::Addr8Ind(*a),
            Argument::Label(l) => ArgumentView::Label(l@),
        }
    }
}

/// The operand that `s` writes: the first of register, register-indirect,
/// register pair, literal, absolute indirect, high-page and high-page
/// register forms that parses, else a label.
#[verifier::opaque]
pub open spec fn argument_of(s: Seq<char>) -> ArgumentView {
    if let Some(r) = reg8_code(s) {
        ArgumentView::Reg8(r)
    } else if let Some(r) = reg8ind_code(s) {
        ArgumentView::Reg8Ind(r)
    } else if let Some(r) = reg16_code(s) {
        ArgumentView::Reg16(r)
    } else if let Some(d) = imm16_value(s) {
        ArgumentView::Imm(d)
    } else if let Some(a) = addr16_value(s) {
        ArgumentView::Addr16(a)
    } else if let Some(a) = (match high_page_inner(s) {
        Some(inner) => imm8_value(inner),
        None => None,
    }) {
        ArgumentView::Addr8(a)
    } else if let Some(a) = (match high_page_inner(s) {
        Some(inner) => reg8_code(inner),
        None => None,
    }) {
        ArgumentView::Addr8Ind(a)
    } else {
        ArgumentView::Label(s)
    }
}

/// The register codes an operand can carry.
pub open spec fn argument_wf(a: ArgumentView) -> bool {
    match a {
        ArgumentView::Reg8(r) => r <= 7,
        ArgumentView::Reg8Ind(r) => r <= 0x30,
        ArgumentView::Reg16(r) => r <= 0x30,
        _ => true,
    }
}

proof fn lemma_argument_wf(s: Seq<char>)
    ensures
        argument_wf(argument_of(s)),
{
    reveal(argument_of);
}

/// Parses an operand.
pub fn parse_arg(arg: &str) -> (r: Argument)
    ensures
        r@ == argument_of(arg@),
{
    proof {
        reveal(argument_of);
    }
    match reg8(arg) {
        Some(r) => Argument::Reg8(r),
        None => match reg8ind(arg) {
            Some(r) => Argument::Reg8Ind(r),
            None => match reg16(arg) {
                Some(r) => Argument::Reg16(r),
                None => match imm16(arg) {
                    Some(d) => Argument::Imm(d),
                    None => match addr16(arg) {
                        Some(a) => Argument::Addr16(a),
                        None => match addr8(arg) {
                            Some(a) => Argument::Addr8(a),
                            None => match addr8ind(arg) {
                                Some(a) => Argument::Addr8Ind(a),
                                None => Argument::Label(chars_of(arg)),
                            },
                        },
                    },
                },
            },
        },
    }
}

/// Why a source text does not assemble.
#[derive(Clone, Copy, Debug, PartialEq, Eq, Structural)]
pub enum AsmError {
    /// A line, or an operand in it, that no form matches.
    Syntax,
    /// A label defined a second time.
    DuplicateLabel,
    /// A label used but never defined.
    UndefinedLabel,
    /// A relative jump whose target is more than a signed byte away.
    OutOfRange,
}

/// A place to patch once labels are known: the position just past the
/// placeholder, the label, and whether the jump is relative.
pub type Fixup = (usize, Vec<char>, bool);

/// The view of the fix-up list.
pub open spec fn fixups_view(fixes: Seq<Fixup>) -> Seq<(int, Seq<char>, bool)> {
    fixes.map_values(|f: Fixup| (f.0 as int, f.1@, f.2))
}

/// The little-endian bytes of a word.
pub open spec fn le_bytes(v: u16) -> Seq<u8> {
    seq![(v % 256) as u8, (v / 256) as u8]
}

/// The bytes of an accumulator operation with base opcode `base` on operand
/// `src`: a register form, or the immediate form `base + 0x46` and a byte.
pub open spec fn binop_bytes(base: u8, src: Seq<char>) -> Option<Seq<u8>> {
    match reg8_code(src) {
        Some(r) => Some(seq![(base + r) as u8]),
        None => match imm8_value(src) {
            Some(v) => Some(seq![(base + 0x46) as u8, v]),
            None => None,
        },
    }
}

/// Emits an accumulator (or prefixed) operation on `src`.
pub fn binop(base: u8, src: &str, data: &mut Vec<u8>) -> (r: Result<(), AsmError>)
    requires
        base <= 0xb8,
    ensures
        match binop_bytes(base, src@) {
            Some(b) => r is Ok && final(data)@ == old(data)@ + b,
            None => r == Err::<(), AsmError>(AsmError::Syntax) && final(data)@ == old(data)@,
        },
{
    match reg8(src) {
        Some(s) => {
            data.push(base + s);
            Ok(())
        },
        None => match imm8(src) {
            Some(v) => {
                data.push(base + 0x46);
                data.push(v);
                Ok(())
            },
            None => Err(AsmError::Syntax),
        },
    }
}

/// The bytes of `LD dst, src`, and the label of a fix-up that follows them
/// when the source is a label.
pub open spec fn ld_bytes(d: ArgumentView, s: ArgumentView) -> Option<(Seq<u8>, Option<Seq<char>>)> {
    match (d, s) {
        (ArgumentView::Reg8(d), ArgumentView::Reg8(s)) => Some(
            (seq![(0x40 + d * 8 + s) as u8], None),
        ),
        (ArgumentView::Reg8(d), ArgumentView::Imm(i)) => Some(
            (seq![(0x06 + d * 8) as u8, (i % 256) as u8], None),
        ),
        (ArgumentView::Reg8(7), ArgumentView::Reg8Ind(s)) => Some((seq![(0x0a + s) as u8], None)),
        (ArgumentView::Reg8Ind(d), ArgumentView::Reg8(7)) => Some((seq![(0x02 + d) as u8], None)),
        (ArgumentView::Reg16(d), ArgumentView::Imm(i)) => Some(
            (seq![(0x01 + d) as u8] + le_bytes(i), None),
        ),
        (ArgumentView::Reg16(d), ArgumentView::Label(l)) => Some(
            (seq![(0x01 + d) as u8, 0u8, 0u8], Some(l)),
        ),
        (ArgumentView::Reg8(7), ArgumentView::Addr8(s)) => Some((seq![0xf0u8, s], None)),
        (ArgumentView::Addr8(d), ArgumentView::Reg8(7)) => Some((seq![0xe0u8, d], None)),
        (ArgumentView::Reg8(7), ArgumentView::Addr16(s)) => Some((seq![0xfau8] + le_bytes(s), None)),
        (ArgumentView::Addr16(d), ArgumentView::Reg8(7)) => Some((seq![0xeau8] + le_bytes(d), None)),
        (ArgumentView::Reg8(7), ArgumentView::Addr8Ind(1)) => Some((seq![0xf2u8], None)),
        (ArgumentView::Addr8Ind(1), ArgumentView::Reg8(7)) => Some((seq![0xe2u8], None)),
        _ => None,
    }
}

/// Emits `LD dst, src`.
pub fn ld(dst: &str, src: &str, data: &mut Vec<u8>, fixes: &mut Vec<Fixup>) -> (r: Result<
    (),
    AsmError,
>)
    ensures
        match ld_bytes(argument_of(dst@), argument_of(src@)) {
            Some((b, label)) => r is Ok && final(data)@ == old(data)@ + b && fixups_view(final(fixes)@)
                == fixups_view(old(fixes)@) + (match label {
                Some(l) => seq![(final(data)@.len() as int, l, false)],
                None => Seq::empty(),
            }),
            None => r == Err::<(), AsmError>(AsmError::Syntax) && final(data)@ == old(data)@
                && final(fixes)@ == old(fixes)@,
        },
{
    let d = parse_arg(dst);
    let s = parse_arg(src);
    let ghost fx0 = fixes@;
    proof {
        lemma_argument_wf(dst@);
        lemma_argument_wf(src@);
    }
    proof {
        assert(fixups_view(fx0) + Seq::empty() =~= fixups_view(fx0));
    }
    match (d, s) {
        (Argument::Reg8(d), Argument::Reg8(s)) => {
            data.push(0x40 + d * 8 + s);
        },
        (Argument::Reg8(d), Argument::Imm(i)) => {
            data.push(0x06 + d * 8);
            data.push((i % 256) as u8);
        },
        (Argument::Reg8(7), Argument::Reg8Ind(s)) => {
            data.push(0x0a + s);
        },
        (Argument::Reg8Ind(d), Argument::Reg8(7)) => {
            data.push(0x02 + d);
        },
        (Argument::Reg16(d), Argument::Imm(i)) => {
            data.push(0x01 + d);
            data.push((i % 256) as u8);
            data.push((i / 256) as u8);
        },
        (Argument::Reg16(d), Argument::Label(label)) => {
            data.push(0x01 + d);
            data.push(0);
            data.push(0);
            let ghost l = label@;
            fixes.push((data.len(), label, false));
            proof {
                assert(fixups_view(fixes@) =~= fixups_view(fx0) + seq![(data@.len() as int, l, false)]);
            }
        },
        (Argument::Reg8(7), Argument::Addr8(s)) => {
            data.push(0xf0);
            data.push(s);
        },
        (Argument::Addr8(d), Argument::Reg8(7)) => {
            data.push(0xe0);
            data.push(d);
        },
        (Argument::Reg8(7), Argument::Addr16(s)) => {
            data.push(0xfa);
            data.push((s % 256) as u8);
            data.push((s / 256) as u8);
        },
        (Argument::Addr16(d), Argument::Reg8(7)) => {
            data.push(0xea);
            data.push((d % 256) as u8);
            data.push((d / 256) as u8);
        },
        (Argument::Reg8(7), Argument::Addr8Ind(1)) => {
            data.push(0xf2);
        },
        (Argument::Addr8Ind(1), Argument::Reg8(7)) => {
            data.push(0xe2);
        },
        _ => {
            return Err(AsmError::Syntax);
        },
    }
    Ok(())
}

/// The opcode offset of a jump condition.
pub open spec fn cond_code(cond: Seq<char>) -> Option<u8> {
    if cond == seq!['N', 'Z'] {
        Some(0)
    } else if cond == seq!['N', 'C'] {
        Some(0x10)
    } else if cond == seq!['Z'] {
        Some(0x08)
    } else if cond == seq!['C'] {
        Some(0x18)
    } else {
        None
    }
}

/// Parses a jump condition.
pub fn cond_offset(cond: &str) -> (r: Option<u8>)
    ensures
        r == cond_code(cond@),
{
    let c = chars_of(cond);
    if eq_chars(c.as_slice(), &['N', 'Z']) {
        Some(0)
    } else if eq_chars(c.as_slice(), &['N', 'C']) {
        Some(0x10)
    } else if is_char(c.as_slice(), 'Z') {
        Some(0x08)
    } else if is_char(c.as_slice(), 'C') {
        Some(0x18)
    } else {
        None
    }
}

/// The operand bytes of a jump to `addr`, and whether a label fix-up
/// follows them.
pub open spec fn jump_operand(addr: Seq<char>, relative: bool) -> (Seq<u8>, bool) {
    if !relative {
        match imm16_value(addr) {
            Some(t) => (le_bytes(t), false),
            None => (seq![0u8, 0u8], true),
        }
    } else {
        match imm8_value(addr) {
            Some(o) => (seq![o], false),
            None => (seq![0u8], true),
        }
    }
}

/// Emits jump opcode `op` with the absolute or relative operand `addr`, a
/// literal or a label to fix up later.
pub fn jump(op: u8, addr: &str, relative: bool, data: &mut Vec<u8>, fixes: &mut Vec<Fixup>)
    ensures
        ({
            let (b, fix) = jump_operand(addr@, relative);
            &&& final(data)@ == old(data)@ + seq![op] + b
            &&& fixups_view(final(fixes)@) == fixups_view(old(fixes)@) + if fix {
                seq![(final(data)@.len() as int, addr@, relative)]
            } else {
                Seq::empty()
            }
        }),
{
    let ghost fx0 = fixes@;
    let ghost d0 = data@;
    data.push(op);
    if !relative {
        match imm16(addr) {
            Some(tgt) => {
                data.push((tgt % 256) as u8);
                data.push((tgt / 256) as u8);
            },
            None => {
                data.push(0);
                data.push(0);
                fixes.push((data.len(), chars_of(addr), relative));
            },
        }
    } else {
        match imm8(addr) {
            Some(offset) => data.push(offset),
            None => {
                data.push(0);
                fixes.push((data.len(), chars_of(addr), relative));
            },
        }
    }
    proof {
        assert(fixups_view(fx0) + Seq::empty() =~= fixups_view(fx0));
        assert(fixups_view(fixes@) =~= fixups_view(fx0) + if jump_operand(addr@, relative).1 {
            seq![(data@.len() as int, addr@, relative)]
        } else {
            Seq::empty()
        });
        assert(data@ =~= d0 + seq![op] + jump_operand(addr@, relative).0);
    }
}

/// Base opcode of the accumulator operations.
pub open spec fn alu_base(m: Seq<char>) -> Option<u8> {
    if m == seq!['A', 'D', 'D'] {
        Some(0x80)
    } else if m == seq!['A', 'D', 'C'] {
        Some(0x88)
    } else if m == seq!['S', 'U', 'B'] {
        Some(0x90)
    } else if m == seq!['S', 'B', 'C'] {
        Some(0x98)
    } else if m == seq!['A', 'N', 'D'] {
        Some(0xa0)
    } else if m == seq!['X', 'O', 'R'] {
        Some(0xa8)
    } else if m == seq!['O', 'R'] {
        Some(0xb0)
    } else if m == seq!['C', 'P'] {
        Some(0xb8)
    } else {
        None
    }
}

/// Base opcode (after the `CB` prefix) of the rotate and shift operations.
pub open spec fn shift_base(m: Seq<char>) -> Option<u8> {
    if m == seq!['R', 'L', 'C'] {
        Some(0x00)
    } else if m == seq!['R', 'R', 'C'] {
        Some(0x08)
    } else if m == seq!['R', 'L'] {
        Some(0x10)
    } else if m == seq!['R', 'R'] {
        Some(0x18)
    } else if m == seq!['S', 'L', 'A'] {
        Some(0x20)
    } else if m == seq!['S', 'R', 'A'] {
        Some(0x28)
    } else if m == seq!['S', 'W', 'A', 'P'] {
        Some(0x30)
    } else if m == seq!['S', 'R', 'L'] {
        Some(0x38)
    } else {
        None
    }
}

/// Opcode of the instructions without operands.
pub open spec fn nullary_opcode(m: Seq<char>) -> Option<u8> {
    if m == seq!['N', 'O', 'P'] {
        Some(0x00)
    } else if m == seq!['C', 'C', 'F'] {
        Some(0x3f)
    } else if m == seq!['C', 'P', 'L'] {
        Some(0x2f)
    } else if m == seq!['H', 'A', 'L', 'T'] {
        Some(0x76)
    } else if m == seq!['S', 'T', 'O', 'P'] {
        Some(0x10)
    } else if m == seq!['R', 'E', 'T', 'I'] {
        Some(0xd9)
    } else if m == seq!['D', 'I'] {
        Some(0xf3)
    } else if m == seq!['E', 'I'] {
        Some(0xfb)
    } else if m == seq!['R', 'L', 'C', 'A'] {
        Some(0x07)
    } else if m == seq!['R', 'R', 'C', 'A'] {
        Some(0x0f)
    } else if m == seq!['R', 'L', 'A'] {
        Some(0x17)
    } else if m == seq!['R', 'R', 'A'] {
        Some(0x1f)
    } else if m == seq!['D', 'A', 'A'] {
        Some(0x27)
    } else if m == seq!['S', 'C', 'F'] {
        Some(0x37)
    } else {
        None
    }
}

/// A bit number `0` to `7`.
pub open spec fn bit_number(s: Seq<char>) -> Option<u8> {
    if s.len() == 1 && '0' <= s[0] <= '7' {
        Some((s[0] as int - '0' as int) as u8)
    } else {
        None
    }
}

/// The bytes of `.DB` operands.
pub open spec fn db_bytes(ops: Seq<Seq<char>>) -> Option<Seq<u8>>
    decreases ops.len(),
{
    if ops.len() == 0 {
        Some(Seq::empty())
    } else {
        match (db_bytes(ops.drop_last()), imm8_value(ops.last())) {
            (Some(b), Some(v)) => Some(b.push(v)),
            _ => None,
        }
    }
}

/// The bytes and fix-ups of a jump written at position `pos`.
pub open spec fn jump_encoding(op: u8, addr: Seq<char>, relative: bool, pos: int) -> (Seq<u8>, Seq<(int, Seq<char>, bool)>) {
    let (b, fix) = jump_operand(addr, relative);
    (
        seq![op] + b,
        if fix {
            seq![(pos + 1 + b.len(), addr, relative)]
        } else {
            Seq::empty()
        },
    )
}

pub open spec fn some_bytes(b: Option<Seq<u8>>, prefix: Seq<u8>) -> Option<(Seq<u8>, Seq<(int, Seq<char>, bool)>)> {
    match b {
        Some(b) => Some((prefix + b, Seq::empty())),
        None => None,
    }
}

/// The bytes and fix-ups of one tokenized line written at position `pos`.
pub open spec fn line_encoding(c: Seq<Seq<char>>, pos: int) -> Option<(Seq<u8>, Seq<(int, Seq<char>, bool)>)> {
    let n = c.len();
    let m = if n > 0 {
        c[0]
    } else {
        Seq::empty()
    };
    if n == 0 {
        Some((Seq::empty(), Seq::empty()))
    } else if n == 3 && m == seq!['L', 'D'] {
        match ld_bytes(argument_of(c[1]), argument_of(c[2])) {
            Some((b, label)) => Some(
                (
                    b,
                    match label {
                        Some(l) => seq![(pos + b.len(), l, false)],
                        None => Seq::empty(),
                    },
                ),
            ),
            None => None,
        }
    } else if n == 2 && alu_base(m) is Some {
        some_bytes(binop_bytes(alu_base(m).unwrap(), c[1]), Seq::empty())
    } else if n == 2 && m == seq!['I', 'N', 'C'] {
        if let Some(r) = reg8_code(c[1]) {
            Some((seq![(0x04 + 8 * r) as u8], Seq::empty()))
        } else if let Some(r) = reg16_code(c[1]) {
            Some((seq![(0x03 + r) as u8], Seq::empty()))
        } else {
            None
        }
    } else if n == 2 && m == seq!['D', 'E', 'C'] {
        if let Some(r) = reg8_code(c[1]) {
            Some((seq![(0x05 + 8 * r) as u8], Seq::empty()))
        } else if let Some(r) = reg16_code(c[1]) {
            Some((seq![(0x0b + r) as u8], Seq::empty()))
        } else {
            None
        }
    } else if n == 2 && shift_base(m) is Some {
        some_bytes(binop_bytes(shift_base(m).unwrap(), c[1]), seq![0xcbu8])
    } else if n == 3 && m == seq!['B', 'I', 'T'] && bit_number(c[1]) is Some {
        some_bytes(binop_bytes((0x40 + 8 * bit_number(c[1]).unwrap()) as u8, c[2]), seq![0xcbu8])
    } else if n == 1 && nullary_opcode(m) is Some {
        Some((seq![nullary_opcode(m).unwrap()], Seq::empty()))
    } else if n == 2 && m == seq!['S', 'T', 'O', 'P'] && c[1] == seq!['0'] {
        Some((seq![0x10u8, 0x00u8], Seq::empty()))
    } else if n == 3 && m == seq!['J', 'R'] {
        match cond_code(c[1]) {
            Some(cc) => Some(jump_encoding((0x20 + cc) as u8, c[2], true, pos)),
            None => None,
        }
    } else if n == 2 && m == seq!['J', 'R'] {
        Some(jump_encoding(0x18, c[1], true, pos))
    } else if n == 3 && m == seq!['J', 'P'] {
        match cond_code(c[1]) {
            Some(cc) => Some(jump_encoding((0xc2 + cc) as u8, c[2], false, pos)),
            None => None,
        }
    } else if n == 2 && m == seq!['J', 'P'] {
        Some(jump_encoding(0xc3, c[1], false, pos))
    } else if n == 3 && m == seq!['C', 'A', 'L', 'L'] {
        match cond_code(c[1]) {
            Some(cc) => Some(jump_encoding((0xc4 + cc) as u8, c[2], false, pos)),
            None => None,
        }
    } else if n == 2 && m == seq!['C', 'A', 'L', 'L'] {
        Some(jump_encoding(0xcd, c[1], false, pos))
    } else if n == 2 && m == seq!['R', 'E', 'T'] {
        match cond_code(c[1]) {
            Some(cc) => Some((seq![(0xc0 + cc) as u8], Seq::empty())),
            None => None,
        }
    } else if n == 1 && m == seq!['R', 'E', 'T'] {
        Some((seq![0xc9u8], Seq::empty()))
    } else if n == 2 && m == seq!['P', 'O', 'P'] {
        match reg16_code(c[1]) {
            Some(r) => Some((seq![(0xc1 + r) as u8], Seq::empty())),
            None => None,
        }
    } else if n == 2 && m == seq!['P', 'U', 'S', 'H'] {
        match reg16_code(c[1]) {
            Some(r) => Some((seq![(0xc5 + r) as u8], Seq::empty())),
            None => None,
        }
    } else if m == seq!['.', 'D', 'B'] {
        some_bytes(db_bytes(c.drop_first()), Seq::empty())
    } else {
        None
    }
}

fn alu_base_of(m: &[char]) -> (r: Option<u8>)
    ensures
        r == alu_base(m@),
{
    if eq_chars(m, &['A', 'D', 'D']) {
        Some(0x80)
    } else if eq_chars(m, &['A', 'D', 'C']) {
        Some(0x88)
    } else if eq_chars(m, &['S', 'U', 'B']) {
        Some(0x90)
    } else if eq_chars(m, &['S', 'B', 'C']) {
        Some(0x98)
    } else if eq_chars(m, &['A', 'N', 'D']) {
        Some(0xa0)
    } else if eq_chars(m, &['X', 'O', 'R']) {
        Some(0xa8)
    } else if eq_chars(m, &['O', 'R']) {
        Some(0xb0)
    } else if eq_chars(m, &['C', 'P']) {
        Some(0xb8)
    } else {
        None
    }
}

fn shift_base_of(m: &[char]) -> (r: Option<u8>)
    ensures
        r == shift_base(m@),
{
    if eq_chars(m, &['R', 'L', 'C']) {
        Some(0x00)
    } else if eq_chars(m, &['R', 'R', 'C']) {
        Some(0x08)
    } else if eq_chars(m, &['R', 'L']) {
        Some(0x10)
    } else if eq_chars(m, &['R', 'R']) {
        Some(0x18)
    } else if eq_chars(m, &['S', 'L', 'A']) {
        Some(0x20)
    } else if eq_chars(m, &['S', 'R', 'A']) {
        Some(0x28)
    } else if eq_chars(m, &['S', 'W', 'A', 'P']) {
        Some(0x30)
    } else if eq_chars(m, &['S', 'R', 'L']) {
        Some(0x38)
    } else {
        None
    }
}

fn nullary_opcode_of(m: &[char]) -> (r: Option<u8>)
    ensures
        r == nullary_opcode(m@),
{
    if eq_chars(m, &['N', 'O', 'P']) {
        Some(0x00)
    } else if eq_chars(m, &['C', 'C', 'F']) {
        Some(0x3f)
    } else if eq_chars(m, &['C', 'P', 'L']) {
        Some(0x2f)
    } else if eq_chars(m, &['H', 'A', 'L', 'T']) {
        Some(0x76)
    } else if eq_chars(m, &['S', 'T', 'O', 'P']) {
        Some(0x10)
    } else if eq_chars(m, &['R', 'E', 'T', 'I']) {
        Some(0xd9)
    } else if eq_chars(m, &['D', 'I']) {
        Some(0xf3)
    } else if eq_chars(m, &['E', 'I']) {
        Some(0xfb)
    } else if eq_chars(m, &['R', 'L', 'C', 'A']) {
        Some(0x07)
    } else if eq_chars(m, &['R', 'R', 'C', 'A']) {
        Some(0x0f)
    } else if eq_chars(m, &['R', 'L', 'A']) {
        Some(0x17)
    } else if eq_chars(m, &['R', 'R', 'A']) {
        Some(0x1f)
    } else if eq_chars(m, &['D', 'A', 'A']) {
        Some(0x27)
    } else if eq_chars(m, &['S', 'C', 'F']) {
        Some(0x37)
    } else {
        None
    }
}

/// The views of a list of tokens.
pub open spec fn tokens_view(c: Seq<&str>) -> Seq<Seq<char>> {
    c.map_values(|t: &str| t@)
}

fn db(ops: &Vec<&str>, data: &mut Vec<u8>) -> (r: Result<(), AsmError>)
    requires
        ops@.len() >= 1,
    ensures
        match db_bytes(tokens_view(ops@).drop_first()) {
            Some(b) => r is Ok && final(data)@ == old(data)@ + b,
            None => r == Err::<(), AsmError>(AsmError::Syntax),
        },
{
    let ghost d0 = data@;
    let ghost ops_v = tokens_view(ops@).drop_first();
    let mut i: usize = 1;
    while i < ops.len()
        invariant
            1 <= i <= ops@.len(),
            ops_v == tokens_view(ops@).drop_first(),
            db_bytes(ops_v.subrange(0, i - 1)) == Some(data@.subrange(d0.len() as int, data@.len() as int)),
            data@.subrange(0, d0.len() as int) == d0,
            data@.len() >= d0.len(),
        decreases ops@.len() - i,
    {
        assert(ops_v.subrange(0, i as int).drop_last() =~= ops_v.subrange(0, i - 1));
        assert(ops_v.subrange(0, i as int).last() == ops@[i as int]@);
        match imm8(ops[i]) {
            Some(v) => {
                data.push(v);
                assert(data@.subrange(d0.len() as int, data@.len() as int) =~= old(data)@.subrange(0, 0) + data@.subrange(d0.len() as int, data@.len() as int));
            },
            None => {
                proof {
                    lemma_db_prefix_none(ops_v, i as int);
                }
                return Err(AsmError::Syntax);
            },
        }
        i = i + 1;
    }
    assert(ops_v.subrange(0, ops_v.len() as int) =~= ops_v);
    assert(data@ =~= d0 + data@.subrange(d0.len() as int, data@.len() as int));
    Ok(())
}

proof fn lemma_db_prefix_none(ops: Seq<Seq<char>>, k: int)
    requires
        1 <= k <= ops.len(),
        db_bytes(ops.subrange(0, k)) is None,
    ensures
        db_bytes(ops) is None,
    decreases ops.len() - k,
{
    if k < ops.len() {
        assert(ops.subrange(0, k + 1).drop_last() =~= ops.subrange(0, k));
        lemma_db_prefix_none(ops, k + 1);
    } else {
        assert(ops.subrange(0, k) =~= ops);
    }
}

/// Emits the instruction of one tokenized line.
pub fn assemble_line(c: &Vec<&str>, data: &mut Vec<u8>, fixes: &mut Vec<Fixup>) -> (r: Result<(), AsmError>)
    ensures
        match line_encoding(tokens_view(c@), old(data)@.len() as int) {
            Some((b, f)) => r is Ok && final(data)@ == old(data)@ + b && fixups_view(final(fixes)@)
                == fixups_view(old(fixes)@) + f,
            None => r == Err::<(), AsmError>(AsmError::Syntax),
        },
{
    let ghost cv = tokens_view(c@);
    let ghost pos = data@.len() as int;
    let ghost d0 = data@;
    let ghost f0 = fixes@;
    proof {
        assert(fixups_view(f0) + Seq::<(int, Seq<char>, bool)>::empty() =~= fixups_view(f0));
        assert(d0 + Seq::<u8>::empty() =~= d0);
    }
    let n = c.len();
    if n == 0 {
        return Ok(());
    }
    assert(cv[0] == c@[0]@);
    let m = chars_of(c[0]);
    let m = m.as_slice();
    if n == 3 && eq_chars(m, &['L', 'D']) {
        assert(cv[1] == c@[1]@ && cv[2] == c@[2]@);
        return ld(c[1], c[2], data, fixes);
    }
    if n == 2 {
        assert(cv[1] == c@[1]@);
        match alu_base_of(m) {
            Some(base) => {
                return binop(base, c[1], data);
            },
            None => {},
        }
    }
    if n == 2 && (eq_chars(m, &['I', 'N', 'C']) || eq_chars(m, &['D', 'E', 'C'])) {
        let inc = eq_chars(m, &['I', 'N', 'C']);
        match reg8(c[1]) {
            Some(r) => {
                data.push(if inc { 0x04 + 8 * r } else { 0x05 + 8 * r });
                return Ok(());
            },
            None => match reg16(c[1]) {
                Some(r) => {
                    data.push(if inc { 0x03 + r } else { 0x0b + r });
                    return Ok(());
                },
                None => {
                    return Err(AsmError::Syntax);
                },
            },
        }
    }
    if n == 2 {
        match shift_base_of(m) {
            Some(base) => {
                data.push(0xcb);
                let r = binop(base, c[1], data);
                assert(r is Ok ==> data@ =~= d0 + (seq![0xcbu8] + binop_bytes(base, cv[1]).unwrap()));
                return r;
            },
            None => {},
        }
    }
    if n == 3 && eq_chars(m, &['B', 'I', 'T']) {
        let b = chars_of(c[1]);
        assert(cv[1] == c@[1]@ && cv[2] == c@[2]@);
        if b.len() == 1 && '0' <= b[0] && b[0] <= '7' {
            let k = (b[0] as u32 - '0' as u32) as u8;
            data.push(0xcb);
            let r = binop(0x40 + 8 * k, c[2], data);
            assert(r is Ok ==> data@ =~= d0 + (seq![0xcbu8] + binop_bytes((0x40 + 8 * k) as u8, cv[2]).unwrap()));
            return r;
        }
    }
    if n == 1 {
        match nullary_opcode_of(m) {
            Some(op) => {
                data.push(op);
                return Ok(());
            },
            None => {},
        }
    }
    if n == 2 && eq_chars(m, &['S', 'T', 'O', 'P']) {
        let z = chars_of(c[1]);
        assert(cv[1] == c@[1]@);
        if is_char(z.as_slice(), '0') {
            data.push(0x10);
            data.push(0x00);
            return Ok(());
        }
    }
    let jr = eq_chars(m, &['J', 'R']);
    let jp = eq_chars(m, &['J', 'P']);
    let call = eq_chars(m, &['C', 'A', 'L', 'L']);
    if jr || jp || call {
        let (cond_base, plain): (u8, u8) = if jr {
            (0x20, 0x18)
        } else if jp {
            (0xc2, 0xc3)
        } else {
            (0xc4, 0xcd)
        };
        if n == 3 {
            assert(cv[1] == c@[1]@ && cv[2] == c@[2]@);
            match cond_offset(c[1]) {
                Some(cc) => {
                    jump(cond_base + cc, c[2], jr, data, fixes);
                    return Ok(());
                },
                None => {
                    return Err(AsmError::Syntax);
                },
            }
        } else if n == 2 {
            assert(cv[1] == c@[1]@);
            jump(plain, c[1], jr, data, fixes);
            return Ok(());
        }
    }
    if eq_chars(m, &['R', 'E', 'T']) {
        if n == 2 {
            assert(cv[1] == c@[1]@);
            match cond_offset(c[1]) {
                Some(cc) => {
                    data.push(0xc0 + cc);
                    return Ok(());
                },
                None => {
                    return Err(AsmError::Syntax);
                },
            }
        } else if n == 1 {
            data.push(0xc9);
            return Ok(());
        }
    }
    let pop = eq_chars(m, &['P', 'O', 'P']);
    let push = eq_chars(m, &['P', 'U', 'S', 'H']);
    if n == 2 && (pop || push) {
        assert(cv[1] == c@[1]@);
        match reg16(c[1]) {
            Some(r) => {
                data.push(if pop { 0xc1 + r } else { 0xc5 + r });
                return Ok(());
            },
            None => {
                return Err(AsmError::Syntax);
            },
        }
    }
    if eq_chars(m, &['.', 'D', 'B']) {
        return db(c, data);
    }
    Err(AsmError::Syntax)
}

/// White space in source text and debugger input: space, tab, carriage
/// return and line feed. Other Unicode white space (form feed, no-break
/// space, ...) counts as an ordinary character.
pub open spec fn is_space(c: char) -> bool {
    c == ' ' || c == '\t' || c == '\r' || c == '\n'
}

pub open spec fn is_separator(c: char) -> bool {
    c == ' ' || c == ','
}

/// Index of the first `c` in `s`, or its length.
pub open spec fn first_of(s: Seq<char>, c: char) -> int
    decreases s.len(),
{
    if s.len() == 0 {
        0
    } else if s[0] == c {
        0
    } else {
        1 + first_of(s.drop_first(), c)
    }
}

pub open spec fn leading_spaces(s: Seq<char>) -> int
    decreases s.len(),
{
    if s.len() > 0 && is_space(s[0]) {
        1 + leading_spaces(s.drop_first())
    } else {
        0
    }
}

pub open spec fn trailing_spaces(s: Seq<char>) -> int
    decreases s.len(),
{
    if s.len() > 0 && is_space(s.last()) {
        1 + trailing_spaces(s.drop_last())
    } else {
        0
    }
}

/// `s` without leading and trailing white space.
pub open spec fn trim(s: Seq<char>) -> Seq<char> {
    let t = s.subrange(leading_spaces(s), s.len() as int);
    t.subrange(0, t.len() - trailing_spaces(t))
}

/// `[cur]` when `cur` is a word, else nothing.
pub open spec fn word_list(cur: Seq<char>) -> Seq<Seq<char>> {
    if cur.len() > 0 {
        seq![cur]
    } else {
        Seq::empty()
    }
}

/// The words of `s`, split at spaces and commas, after the partial word `cur`.
pub open spec fn split_from(s: Seq<char>, cur: Seq<char>) -> Seq<Seq<char>>
    decreases s.len(),
{
    if s.len() == 0 {
        word_list(cur)
    } else if is_separator(s[0]) {
        word_list(cur) + split_from(s.drop_first(), Seq::empty())
    } else {
        split_from(s.drop_first(), cur.push(s[0]))
    }
}

/// The words of `s`, split at spaces and commas.
pub open spec fn split_tokens(s: Seq<char>) -> Seq<Seq<char>> {
    split_from(s, Seq::empty())
}

proof fn lemma_first_of_bounds(s: Seq<char>, c: char)
    ensures
        0 <= first_of(s, c) <= s.len(),
        first_of(s, c) < s.len() ==> s[first_of(s, c)] == c,
        forall|i: int| 0 <= i < first_of(s, c) ==> s[i] != c,
    decreases s.len(),
{
    if s.len() > 0 && s[0] != c {
        lemma_first_of_bounds(s.drop_first(), c);
        assert forall|i: int| 0 <= i < first_of(s, c) implies s[i] != c by {
            if i > 0 {
                assert(s[i] == s.drop_first()[i - 1]);
            }
        }
    }
}

fn find_char(s: &str, c: char) -> (r: usize)
    ensures
        r == first_of(s@, c),
        r <= s@.len(),
{
    let n = s.unicode_len();
    let mut i: usize = 0;
    proof {
        lemma_first_of_bounds(s@, c);
    }
    while i < n && s.get_char(i) != c
        invariant
            n == s@.len(),
            i <= n,
            forall|j: int| 0 <= j < i ==> s@[j] != c,
        decreases n - i,
    {
        i = i + 1;
    }
    proof {
        lemma_first_of_is(s@, c, i as int);
    }
    i
}

proof fn lemma_first_of_is(s: Seq<char>, c: char, i: int)
    requires
        0 <= i <= s.len(),
        forall|j: int| 0 <= j < i ==> s[j] != c,
        i < s.len() ==> s[i] == c,
    ensures
        first_of(s, c) == i,
    decreases s.len(),
{
    if s.len() > 0 && i > 0 {
        lemma_first_of_is(s.drop_first(), c, i - 1);
    }
}

proof fn lemma_leading_is(s: Seq<char>, i: int)
    requires
        0 <= i <= s.len(),
        forall|j: int| 0 <= j < i ==> is_space(#[trigger] s[j]),
        i < s.len() ==> !is_space(s[i]),
    ensures
        leading_spaces(s) == i,
    decreases s.len(),
{
    if s.len() > 0 && i > 0 {
        lemma_leading_is(s.drop_first(), i - 1);
    }
}

proof fn lemma_trailing_is(s: Seq<char>, k: int)
    requires
        0 <= k <= s.len(),
        forall|j: int| s.len() - k <= j < s.len() ==> is_space(#[trigger] s[j]),
        k < s.len() ==> !is_space(s[s.len() - k - 1]),
    ensures
        trailing_spaces(s) == k,
    decreases s.len(),
{
    if s.len() > 0 && k > 0 {
        lemma_trailing_is(s.drop_last(), k - 1);
    }
}

/// `s` without leading and trailing white space.
pub fn trimmed(s: &str) -> (r: &str)
    ensures
        r@ == trim(s@),
{
    let n = s.unicode_len();
    let mut a: usize = 0;
    while a < n && (s.get_char(a) == ' ' || s.get_char(a) == '\t' || s.get_char(a) == '\r'
        || s.get_char(a) == '\n')
        invariant
            n == s@.len(),
            a <= n,
            forall|j: int| 0 <= j < a ==> is_space(#[trigger] s@[j]),
        decreases n - a,
    {
        a = a + 1;
    }
    proof {
        lemma_leading_is(s@, a as int);
    }
    let t = s.substring_char(a, n);
    let m = t.unicode_len();
    let mut k: usize = 0;
    while k < m && (t.get_char(m - k - 1) == ' ' || t.get_char(m - k - 1) == '\t' || t.get_char(
        m - k - 1,
    ) == '\r' || t.get_char(m - k - 1) == '\n')
        invariant
            m == t@.len(),
            k <= m,
            forall|j: int| m - k <= j < m ==> is_space(#[trigger] t@[j]),
        decreases m - k,
    {
        k = k + 1;
    }
    proof {
        lemma_trailing_is(t@, k as int);
    }
    t.substring_char(0, m - k)
}

/// The words of `s`, split at spaces and commas.
pub fn tokenize<'a>(s: &'a str) -> (r: Vec<&'a str>)
    ensures
        tokens_view(r@) == split_tokens(s@),
{
    let n = s.unicode_len();
    let mut r: Vec<&'a str> = Vec::new();
    let mut start: usize = 0;
    let mut i: usize = 0;
    proof {
        assert(s@.subrange(0, n as int) =~= s@);
        assert(s@.subrange(0, 0) =~= Seq::<char>::empty());
        assert(tokens_view(r@) =~= Seq::<Seq<char>>::empty());
    }
    while i < n
        invariant
            n == s@.len(),
            start <= i <= n,
            tokens_view(r@) + split_from(s@.subrange(i as int, n as int), s@.subrange(start as int, i as int))
                == split_tokens(s@),
        decreases n - i,
    {
        let ghost rest = s@.subrange(i as int, n as int);
        let ghost cur = s@.subrange(start as int, i as int);
        assert(rest.drop_first() =~= s@.subrange(i + 1, n as int));
        let c = s.get_char(i);
        if c == ' ' || c == ',' {
            let ghost before = r@;
            if start < i {
                r.push(s.substring_char(start, i));
            }
            proof {
                assert(tokens_view(r@) =~= tokens_view(before) + word_list(cur));
                assert(s@.subrange(i + 1, i + 1) =~= Seq::<char>::empty());
            }
            i = i + 1;
            start = i;
        } else {
            assert(cur.push(c) =~= s@.subrange(start as int, i + 1));
            i = i + 1;
        }
    }
    let ghost cur = s@.subrange(start as int, n as int);
    let ghost before = r@;
    if start < n {
        r.push(s.substring_char(start, n));
    }
    proof {
        assert(s@.subrange(n as int, n as int) =~= Seq::<char>::empty());
        assert(tokens_view(r@) =~= tokens_view(before) + word_list(cur));
    }
    r
}

/// The first pass's state: bytes, fix-ups and label addresses so far.
pub struct FirstPass {
    pub data: Seq<u8>,
    pub fixes: Seq<(int, Seq<char>, bool)>,
    pub labels: Seq<(Seq<char>, int)>,
}

/// The text of a line that counts: before any `;`, trimmed.
pub open spec fn line_text(line: Seq<char>) -> Seq<char> {
    trim(line.subrange(0, first_of(line, ';')))
}

/// The address of label `l`, searching from the latest definition.
pub open spec fn label_address(labels: Seq<(Seq<char>, int)>, l: Seq<char>) -> Option<int>
    decreases labels.len(),
{
    if labels.len() == 0 {
        None
    } else if labels.last().0 == l {
        Some(labels.last().1)
    } else {
        label_address(labels.drop_last(), l)
    }
}

/// The first pass over one more line.
pub open spec fn pass_line(st: FirstPass, line: Seq<char>) -> Result<FirstPass, AsmError> {
    let t = line_text(line);
    if t.len() > 0 && t.last() == ':' {
        let l = trim(t.subrange(0, first_of(t, ':')));
        if label_address(st.labels, l) is Some {
            Err(AsmError::DuplicateLabel)
        } else {
            Ok(FirstPass { labels: st.labels.push((l, st.data.len() as int)), ..st })
        }
    } else {
        match line_encoding(split_tokens(t), st.data.len() as int) {
            Some((b, f)) => Ok(FirstPass { data: st.data + b, fixes: st.fixes + f, ..st }),
            None => Err(AsmError::Syntax),
        }
    }
}

/// The first pass over `lines`.
pub open spec fn first_pass(lines: Seq<Seq<char>>) -> Result<FirstPass, AsmError>
    decreases lines.len(),
{
    if lines.len() == 0 {
        Ok(FirstPass { data: Seq::empty(), fixes: Seq::empty(), labels: Seq::empty() })
    } else {
        match first_pass(lines.drop_last()) {
            Ok(st) => pass_line(st, lines.last()),
            Err(e) => Err(e),
        }
    }
}

/// `data` with one fix-up resolved: a relative one gets the signed offset
/// from its position to the label, an absolute one the label's address.
pub open spec fn patch(data: Seq<u8>, fix: (int, Seq<char>, bool), labels: Seq<(Seq<char>, int)>) -> Result<Seq<u8>, AsmError> {
    match label_address(labels, fix.1) {
        None => Err(AsmError::UndefinedLabel),
        Some(tgt) => if fix.0 < 2 || fix.0 > data.len() {
            Ok(data)
        } else if fix.2 {
            let off = tgt - fix.0;
            if -128 <= off < 128 {
                Ok(data.update(fix.0 - 1, ((off + 256) % 256) as u8))
            } else {
                Err(AsmError::OutOfRange)
            }
        } else {
            Ok(data.update(fix.0 - 2, (tgt % 256) as u8).update(fix.0 - 1, ((tgt / 256) % 256) as u8))
        },
    }
}

/// The second pass: every fix-up resolved in order.
pub open spec fn second_pass(data: Seq<u8>, fixes: Seq<(int, Seq<char>, bool)>, labels: Seq<(Seq<char>, int)>) -> Result<Seq<u8>, AsmError>
    decreases fixes.len(),
{
    if fixes.len() == 0 {
        Ok(data)
    } else {
        match second_pass(data, fixes.drop_last(), labels) {
            Ok(d) => patch(d, fixes.last(), labels),
            Err(e) => Err(e),
        }
    }
}

/// The machine code of a source text given as lines.
pub open spec fn assembled(lines: Seq<Seq<char>>) -> Result<Seq<u8>, AsmError> {
    match first_pass(lines) {
        Ok(st) => second_pass(st.data, st.fixes, st.labels),
        Err(e) => Err(e),
    }
}

pub open spec fn labels_view(labels: Seq<(Vec<char>, usize)>) -> Seq<(Seq<char>, int)> {
    labels.map_values(|l: (Vec<char>, usize)| (l.0@, l.1 as int))
}

fn find_label(labels: &Vec<(Vec<char>, usize)>, l: &Vec<char>) -> (r: Option<usize>)
    ensures
        r matches Some(a) ==> label_address(labels_view(labels@), l@) == Some(a as int),
        r is None ==> label_address(labels_view(labels@), l@) is None,
{
    let mut i: usize = labels.len();
    assert(labels@.subrange(0, i as int) =~= labels@);
    while i > 0
        invariant
            i <= labels@.len(),
            label_address(labels_view(labels@), l@) == label_address(
                labels_view(labels@.subrange(0, i as int)),
                l@,
            ),
        decreases i,
    {
        let ghost lv = labels_view(labels@.subrange(0, i as int));
        assert(lv.last() == (labels@[i - 1].0@, labels@[i - 1].1 as int));
        if eq_chars(labels[i - 1].0.as_slice(), l.as_slice()) {
            return Some(labels[i - 1].1);
        }
        assert(lv.drop_last() =~= labels_view(labels@.subrange(0, i - 1)));
        i = i - 1;
    }
    None
}

proof fn lemma_first_pass_err(lines: Seq<Seq<char>>, k: int, e: AsmError)
    requires
        0 <= k <= lines.len(),
        first_pass(lines.subrange(0, k)) == Err::<FirstPass, AsmError>(e),
    ensures
        first_pass(lines) == Err::<FirstPass, AsmError>(e),
    decreases lines.len() - k,
{
    if k < lines.len() {
        assert(lines.subrange(0, k + 1).drop_last() =~= lines.subrange(0, k));
        lemma_first_pass_err(lines, k + 1, e);
    } else {
        assert(lines.subrange(0, k) =~= lines);
    }
}

proof fn lemma_second_pass_err(
    data: Seq<u8>,
    fixes: Seq<(int, Seq<char>, bool)>,
    labels: Seq<(Seq<char>, int)>,
    k: int,
    e: AsmError,
)
    requires
        0 <= k <= fixes.len(),
        second_pass(data, fixes.subrange(0, k), labels) == Err::<Seq<u8>, AsmError>(e),
    ensures
        second_pass(data, fixes, labels) == Err::<Seq<u8>, AsmError>(e),
    decreases fixes.len() - k,
{
    if k < fixes.len() {
        assert(fixes.subrange(0, k + 1).drop_last() =~= fixes.subrange(0, k));
        lemma_second_pass_err(data, fixes, labels, k + 1, e);
    } else {
        assert(fixes.subrange(0, k) =~= fixes);
    }
}

pub open spec fn lines_view(lines: Seq<String>) -> Seq<Seq<char>> {
    lines.map_values(|l: String| l@)
}

/// Assembles source lines into machine code (white space as `is_space`
/// says): labels end in `:`, `;` starts a
/// comment, and unresolved labels are patched after the last line.
pub fn assemble(lines: &Vec<String>) -> (r: Result<Vec<u8>, AsmError>)
    ensures
        match assembled(lines_view(lines@)) {
            Ok(b) => r matches Ok(v) && v@ == b,
            Err(e) => r == Err::<Vec<u8>, AsmError>(e),
        },
{
    let ghost lv = lines_view(lines@);
    let mut data: Vec<u8> = Vec::new();
    let mut fixes: Vec<Fixup> = Vec::new();
    let mut labels: Vec<(Vec<char>, usize)> = Vec::new();
    let mut i: usize = 0;
    proof {
        assert(lv.subrange(0, 0) =~= Seq::<Seq<char>>::empty());
        assert(fixups_view(fixes@) =~= Seq::<(int, Seq<char>, bool)>::empty());
        assert(labels_view(labels@) =~= Seq::<(Seq<char>, int)>::empty());
    }
    while i < lines.len()
        invariant
            i <= lines@.len(),
            lv == lines_view(lines@),
            first_pass(lv.subrange(0, i as int)) == Ok::<FirstPass, AsmError>(
                FirstPass {
                    data: data@,
                    fixes: fixups_view(fixes@),
                    labels: labels_view(labels@),
                },
            ),
        decreases lines@.len() - i,
    {
        proof {
            assert(lv.subrange(0, i + 1).drop_last() =~= lv.subrange(0, i as int));
            assert(lv.subrange(0, i + 1).last() == lines@[i as int]@);
        }
        let line = lines[i].as_str();
        let t = trimmed(line.substring_char(0, find_char(line, ';')));
        let tn = t.unicode_len();
        if tn > 0 && t.get_char(tn - 1) == ':' {
            let l = chars_of(trimmed(t.substring_char(0, find_char(t, ':'))));
            match find_label(&labels, &l) {
                Some(_) => {
                    proof {
                        lemma_first_pass_err(lv, i + 1, AsmError::DuplicateLabel);
                    }
                    return Err(AsmError::DuplicateLabel);
                },
                None => {},
            }
            let ghost lb = labels@;
            let ghost lt = l@;
            labels.push((l, data.len()));
            proof {
                assert(labels_view(labels@) =~= labels_view(lb).push((lt, data@.len() as int)));
            }
        } else {
            let toks = tokenize(t);
            match assemble_line(&toks, &mut data, &mut fixes) {
                Ok(()) => {},
                Err(e) => {
                    proof {
                        lemma_first_pass_err(lv, i + 1, e);
                    }
                    return Err(e);
                },
            }
        }
        i = i + 1;
    }
    proof {
        assert(lv.subrange(0, lines@.len() as int) =~= lv);
    }
    let ghost fv = fixups_view(fixes@);
    let ghost lab = labels_view(labels@);
    let ghost d0 = data@;
    let mut k: usize = 0;
    while k < fixes.len()
        invariant
            k <= fixes@.len(),
            fv == fixups_view(fixes@),
            lab == labels_view(labels@),
            second_pass(d0, fv.subrange(0, k as int), lab) == Ok::<Seq<u8>, AsmError>(data@),
            lv == lines_view(lines@),
            first_pass(lv) == Ok::<FirstPass, AsmError>(FirstPass { data: d0, fixes: fv, labels: lab }),
        decreases fixes@.len() - k,
    {
        proof {
            assert(fv.subrange(0, k + 1).drop_last() =~= fv.subrange(0, k as int));
            assert(fv.subrange(0, k + 1).last() == fv[k as int]);
        }
        let pos = fixes[k].0;
        let relative = fixes[k].2;
        assert(fv[k as int] == (pos as int, fixes@[k as int].1@, relative));
        match find_label(&labels, &fixes[k].1) {
            None => {
                proof {
                    lemma_second_pass_err(d0, fv, lab, k + 1, AsmError::UndefinedLabel);
                }
                return Err(AsmError::UndefinedLabel);
            },
            Some(tgt) => {
                if pos < 2 || pos > data.len() {
                } else if relative {
                    if (tgt >= pos && tgt - pos < 128) || (tgt < pos && pos - tgt <= 128) {
                        let off: u8 = if tgt >= pos {
                            (tgt - pos) as u8
                        } else {
                            (256 - (pos - tgt)) as u8
                        };
                        data.set(pos - 1, off);
                    } else {
                        proof {
                            lemma_second_pass_err(d0, fv, lab, k + 1, AsmError::OutOfRange);
                        }
                        return Err(AsmError::OutOfRange);
                    }
                } else {
                    data.set(pos - 2, (tgt % 256) as u8);
                    data.set(pos - 1, ((tgt / 256) % 256) as u8);
                }
            },
        }
        k = k + 1;
    }
    proof {
        assert(fv.subrange(0, fv.len() as int) =~= fv);
    }
    Ok(data)
}

} // verus!
