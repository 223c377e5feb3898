//! A model of the x86-64 instructions that the compiler emits, written from
//! what the instructions do: what an integer operation leaves in its
//! destination, what a `set` instruction stores after a comparison, and a
//! small interpreter of a function's text up to its call of `printf`. The
//! laws here hold the compiler's choices of instructions to the meaning of
//! the language's operators and built-in functions.
use vstd::prelude::*;
use crate::three_address_code_gen::{Operator, op_asm, op_asm_f32, op_asm_f64};
use crate::code_generator::set_instr;
use crate::enbeded_funcs::builtin_code;
use crate::text::{first_where, lemma_first_where_unique};

verus! {

/// What the integer instruction `m dst, src` leaves in `dst`, the values
/// taken as 64-bit integers and sums, differences and products as integers
/// (their wrap-around to 64 bits is the same on both sides of the laws
/// below).
pub open spec fn alu_result(m: Seq<char>, dst: i64, src: i64) -> Option<int> {
    if m == seq!['a', 'd', 'd'] {
        Some(dst + src)
    } else if m == seq!['s', 'u', 'b'] {
        Some(dst - src)
    } else if m == seq!['i', 'm', 'u', 'l'] {
        Some(dst * src)
    } else if m == seq!['a', 'n', 'd'] {
        Some((dst & src) as int)
    } else if m == seq!['o', 'r'] {
        Some((dst | src) as int)
    } else {
        None
    }
}

/// The meaning of the language's integer arithmetic and bitwise operators.
pub open spec fn int_meaning(op: Operator, a: i64, b: i64) -> Option<int> {
    match op {
        Operator::Plus => Some(a + b),
        Operator::Minus => Some(a - b),
        Operator::Multiplication => Some(a * b),
        Operator::And => Some((a & b) as int),
        Operator::Or => Some((a | b) as int),
        _ => None,
    }
}

/// The integer instruction chosen for `+`, `-`, `*`, `&` and `|` leaves in
/// its destination (the first operand) the sum, difference, product,
/// bitwise and or bitwise or of the two operands, for all operand values.
pub proof fn lemma_int_instructions(op: Operator, a: i64, b: i64)
    requires
        int_meaning(op, a, b) is Some,
    ensures
        op_asm(op) matches Some(m) && alu_result(m, a, b) == int_meaning(op, a, b),
{
    let add = seq!['a', 'd', 'd'];
    let sub = seq!['s', 'u', 'b'];
    let imul = seq!['i', 'm', 'u', 'l'];
    let and = seq!['a', 'n', 'd'];
    let or = seq!['o', 'r'];
    assert(sub[0] != add[0] && and[1] != add[1] && and[0] != sub[0]);
    assert(imul.len() != add.len() && imul.len() != sub.len() && imul.len() != and.len());
    assert(or.len() != add.len() && or.len() != sub.len() && or.len() != imul.len() && or.len() != and.len());
}

/// What the SSE instruction `m xmm0, xmm1` leaves in `xmm0`, for numbers of
/// single (`single`) or double precision, the values taken as numbers
/// (rounding aside): `add`, `sub`, `mul` or `div`, then `ss` for single and
/// `sd` for double precision; an instruction of the other precision has none.
pub open spec fn sse_result(m: Seq<char>, single: bool, a: int, b: int) -> Option<int> {
    let suffix = if single { seq!['s', 's'] } else { seq!['s', 'd'] };
    if m.len() != 5 || m.skip(3) != suffix {
        None
    } else if m.take(3) == seq!['a', 'd', 'd'] {
        Some(a + b)
    } else if m.take(3) == seq!['s', 'u', 'b'] {
        Some(a - b)
    } else if m.take(3) == seq!['m', 'u', 'l'] {
        Some(a * b)
    } else if m.take(3) == seq!['d', 'i', 'v'] {
        Some(a / b)
    } else {
        None
    }
}

/// The meaning of the language's arithmetic operators on numbers.
pub open spec fn num_meaning(op: Operator, a: int, b: int) -> Option<int> {
    match op {
        Operator::Plus => Some(a + b),
        Operator::Minus => Some(a - b),
        Operator::Multiplication => Some(a * b),
        Operator::Division => Some(a / b),
        _ => None,
    }
}

/// The SSE instruction chosen for `+`, `-`, `*` and `/` on `float` values
/// works in single precision and on `double` values in double precision,
/// and computes the sum, difference, product or quotient.
pub proof fn lemma_float_instructions(op: Operator, a: int, b: int)
    requires
        num_meaning(op, a, b) is Some,
    ensures
        op_asm_f32(op) matches Some(m) && sse_result(m, true, a, b) == num_meaning(op, a, b),
        op_asm_f64(op) matches Some(m) && sse_result(m, false, a, b) == num_meaning(op, a, b),
{
    let m1 = op_asm_f32(op)->0;
    let m2 = op_asm_f64(op)->0;
    assert(m1.skip(3) =~= seq!['s', 's']);
    assert(m2.skip(3) =~= seq!['s', 'd']);
    assert(seq!['s', 's'] != seq!['s', 'd']) by {
        assert(seq!['s', 's'][1] != seq!['s', 'd'][1]);
    }
    let add = seq!['a', 'd', 'd'];
    let sub = seq!['s', 'u', 'b'];
    let mul = seq!['m', 'u', 'l'];
    let div = seq!['d', 'i', 'v'];
    assert(add[0] != sub[0] && add[0] != mul[0] && add[0] != div[0] && sub[0] != mul[0] && sub[0] != div[0]
        && mul[0] != div[0]);
    assert(m1.take(3) =~= m2.take(3));
    match op {
        Operator::Plus => { assert(m1.take(3) =~= add); },
        Operator::Minus => { assert(m1.take(3) =~= sub); },
        Operator::Multiplication => { assert(m1.take(3) =~= mul); },
        _ => { assert(m1.take(3) =~= div); },
    }
}

/// What `set.. al` stores after comparing `a` with `b`: after `cmp` for
/// integers (`fp` false; signed conditions `l`, `g`, `ge`, `le`), after
/// `ucomiss`/`ucomisd` for floats (`fp` true; there the order shows in the
/// carry and zero flags, read by `b`, `a`, `ae`, `be`). Other lines, or a
/// condition that does not read the flags that comparison sets, have none.
pub open spec fn set_result(line: Seq<char>, fp: bool, a: int, b: int) -> Option<bool> {
    if line == seq![' ', ' ', ' ', ' ', 's', 'e', 't', 'e', ' ', 'a', 'l'] {
        Some(a == b)
    } else if line == seq![' ', ' ', ' ', ' ', 's', 'e', 't', 'n', 'e', ' ', 'a', 'l'] {
        Some(a != b)
    } else if !fp && line == seq![' ', ' ', ' ', ' ', 's', 'e', 't', 'l', ' ', 'a', 'l'] {
        Some(a < b)
    } else if !fp && line == seq![' ', ' ', ' ', ' ', 's', 'e', 't', 'g', ' ', 'a', 'l'] {
        Some(a > b)
    } else if !fp && line == seq![' ', ' ', ' ', ' ', 's', 'e', 't', 'g', 'e', ' ', 'a', 'l'] {
        Some(a >= b)
    } else if !fp && line == seq![' ', ' ', ' ', ' ', 's', 'e', 't', 'l', 'e', ' ', 'a', 'l'] {
        Some(a <= b)
    } else if fp && line == seq![' ', ' ', ' ', ' ', 's', 'e', 't', 'b', ' ', 'a', 'l'] {
        Some(a < b)
    } else if fp && line == seq![' ', ' ', ' ', ' ', 's', 'e', 't', 'a', ' ', 'a', 'l'] {
        Some(a > b)
    } else if fp && line == seq![' ', ' ', ' ', ' ', 's', 'e', 't', 'a', 'e', ' ', 'a', 'l'] {
        Some(a >= b)
    } else if fp && line == seq![' ', ' ', ' ', ' ', 's', 'e', 't', 'b', 'e', ' ', 'a', 'l'] {
        Some(a <= b)
    } else {
        None
    }
}

/// The meaning of the language's comparison operators.
pub open spec fn compare_meaning(op: Operator, a: int, b: int) -> Option<bool> {
    match op {
        Operator::LogicalEquals => Some(a == b),
        Operator::NotEquals => Some(a != b),
        Operator::LessThan => Some(a < b),
        Operator::GreaterThan => Some(a > b),
        Operator::GreaterThanEquals => Some(a >= b),
        Operator::LessThanEquals => Some(a <= b),
        _ => None,
    }
}

/// The `set` instruction chosen for a comparison stores 1 exactly when the
/// comparison holds of the compared values and 0 otherwise, for integers
/// and for floats, for all values.
pub proof fn lemma_compare_instructions(op: Operator, fp: bool, a: int, b: int)
    requires
        compare_meaning(op, a, b) is Some,
    ensures
        set_instr(op, fp) matches Some(line) && set_result(line, fp, a, b) == compare_meaning(op, a, b),
{
    let sete = seq![' ', ' ', ' ', ' ', 's', 'e', 't', 'e', ' ', 'a', 'l'];
    let setne = seq![' ', ' ', ' ', ' ', 's', 'e', 't', 'n', 'e', ' ', 'a', 'l'];
    let setl = seq![' ', ' ', ' ', ' ', 's', 'e', 't', 'l', ' ', 'a', 'l'];
    let setg = seq![' ', ' ', ' ', ' ', 's', 'e', 't', 'g', ' ', 'a', 'l'];
    let setge = seq![' ', ' ', ' ', ' ', 's', 'e', 't', 'g', 'e', ' ', 'a', 'l'];
    let setle = seq![' ', ' ', ' ', ' ', 's', 'e', 't', 'l', 'e', ' ', 'a', 'l'];
    let setb = seq![' ', ' ', ' ', ' ', 's', 'e', 't', 'b', ' ', 'a', 'l'];
    let seta = seq![' ', ' ', ' ', ' ', 's', 'e', 't', 'a', ' ', 'a', 'l'];
    let setae = seq![' ', ' ', ' ', ' ', 's', 'e', 't', 'a', 'e', ' ', 'a', 'l'];
    let setbe = seq![' ', ' ', ' ', ' ', 's', 'e', 't', 'b', 'e', ' ', 'a', 'l'];
    // Lines of one length differ at their eighth character.
    assert(sete[7] != setl[7] && sete[7] != setg[7] && sete[7] != setb[7] && sete[7] != seta[7]);
    assert(setl[7] != setg[7] && setl[7] != setb[7] && setl[7] != seta[7]);
    assert(setg[7] != setb[7] && setg[7] != seta[7] && setb[7] != seta[7]);
    assert(setne[7] != setge[7] && setne[7] != setle[7] && setne[7] != setae[7] && setne[7] != setbe[7]);
    assert(setge[7] != setle[7] && setge[7] != setae[7] && setge[7] != setbe[7]);
    assert(setle[7] != setae[7] && setle[7] != setbe[7] && setae[7] != setbe[7]);
    assert(sete.len() != setne.len());
}

/// A register's content: a number, or the address of a label.
pub enum Val {
    Num(int),
    Addr(Seq<char>),
}

/// The registers (by their 64-bit names) and the zero flag.
pub struct Machine {
    pub regs: Map<Seq<char>, Val>,
    pub zf: bool,
}

/// The 64-bit register that a register name is (the low half of).
pub open spec fn reg64(r: Seq<char>) -> Seq<char> {
    if r == seq!['e', 'd', 'i'] {
        seq!['r', 'd', 'i']
    } else if r == seq!['e', 's', 'i'] {
        seq!['r', 's', 'i']
    } else if r == seq!['e', 'a', 'x'] {
        seq!['r', 'a', 'x']
    } else {
        r
    }
}

/// A line without its leading blanks.
pub open spec fn trim_left(s: Seq<char>) -> Seq<char>
    decreases s.len(),
{
    if s.len() > 0 && s[0] == ' ' {
        trim_left(s.drop_first())
    } else {
        s
    }
}

/// `mn r1, r2` with two three-letter registers.
pub open spec fn two_regs(l: Seq<char>, mn: Seq<char>) -> Option<(Seq<char>, Seq<char>)> {
    let n = mn.len() as int;
    if l.len() == n + 9 && l.take(n) == mn && l[n] == ' ' && l[n + 4] == ',' && l[n + 5] == ' ' {
        Some((l.subrange(n + 1, n + 4), l.subrange(n + 6, n + 9)))
    } else {
        None
    }
}

/// `mn r` with one three-letter register.
pub open spec fn one_reg(l: Seq<char>, mn: Seq<char>) -> bool {
    let n = mn.len() as int;
    l.len() == n + 4 && l.take(n) == mn && l[n] == ' '
}

/// `lea r, [rel label]`.
pub open spec fn lea_of(l: Seq<char>) -> Option<(Seq<char>, Seq<char>)> {
    if l.len() > 15 && l.take(4) == seq!['l', 'e', 'a', ' '] && l.subrange(7, 14) == seq![',', ' ', '[', 'r', 'e', 'l', ' ']
        && l.last() == ']' {
        Some((l.subrange(4, 7), l.subrange(14, l.len() - 1)))
    } else {
        None
    }
}

/// One instruction (or a label, or a blank line); none for what the model
/// does not cover, or for reading a register that holds nothing yet.
/// `push` and `pop` move only the stack, which the model leaves out.
#[verifier::opaque]
pub open spec fn step(m: Machine, line: Seq<char>) -> Option<Machine> {
    let l = trim_left(line);
    if l.len() == 0 || l.last() == ':' {
        Some(m)
    } else if lea_of(l) is Some {
        let (r, lab) = lea_of(l)->0;
        Some(Machine { regs: m.regs.insert(reg64(r), Val::Addr(lab)), ..m })
    } else if one_reg(l, seq!['p', 'u', 's', 'h']) || one_reg(l, seq!['p', 'o', 'p']) {
        Some(m)
    } else if two_regs(l, seq!['m', 'o', 'v']) is Some {
        let (r1, r2) = two_regs(l, seq!['m', 'o', 'v'])->0;
        if m.regs.dom().contains(reg64(r2)) {
            Some(Machine { regs: m.regs.insert(reg64(r1), m.regs[reg64(r2)]), ..m })
        } else {
            None
        }
    } else if two_regs(l, seq!['x', 'o', 'r']) is Some {
        let (r1, r2) = two_regs(l, seq!['x', 'o', 'r'])->0;
        if r1 == r2 {
            Some(Machine { regs: m.regs.insert(reg64(r1), Val::Num(0)), ..m })
        } else {
            None
        }
    } else if two_regs(l, seq!['t', 'e', 's', 't']) is Some {
        let (r1, r2) = two_regs(l, seq!['t', 'e', 's', 't'])->0;
        if r1 == r2 && m.regs.dom().contains(reg64(r1)) && m.regs[reg64(r1)] is Num {
            Some(Machine { zf: m.regs[reg64(r1)]->Num_0 == 0, ..m })
        } else {
            None
        }
    } else if two_regs(l, seq!['c', 'm', 'o', 'v', 'z']) is Some || two_regs(l, seq!['c', 'm', 'o', 'v', 'n', 'z']) is Some {
        let when_zero = two_regs(l, seq!['c', 'm', 'o', 'v', 'z']) is Some;
        let (r1, r2) = if when_zero {
            two_regs(l, seq!['c', 'm', 'o', 'v', 'z'])->0
        } else {
            two_regs(l, seq!['c', 'm', 'o', 'v', 'n', 'z'])->0
        };
        if !m.regs.dom().contains(reg64(r2)) {
            None
        } else if m.zf == when_zero {
            Some(Machine { regs: m.regs.insert(reg64(r1), m.regs[reg64(r2)]), ..m })
        } else {
            Some(m)
        }
    } else {
        None
    }
}

pub open spec fn is_newline(c: char) -> bool {
    c == '\n'
}

/// Running a function's text line by line up to its `call printf`: the
/// machine at that call, or none where the text ends first or holds what
/// the model does not cover.
#[verifier::opaque]
pub open spec fn run_to_printf(s: Seq<char>, m: Machine) -> Option<Machine>
    decreases s.len(),
{
    let k = first_where(s, |c: char| is_newline(c)) as int;
    let line = s.take(k);
    if trim_left(line) == seq!['c', 'a', 'l', 'l', ' ', 'p', 'r', 'i', 'n', 't', 'f'] {
        Some(m)
    } else if k >= s.len() {
        None
    } else {
        match step(m, line) {
            None => None,
            Some(m1) => run_to_printf(s.skip(k + 1), m1),
        }
    }
}

proof fn lemma_run_line(a: Seq<char>, r: Seq<char>, m: Machine)
    requires
        forall|i: int| 0 <= i < a.len() ==> a[i] != '\n',
    ensures
        run_to_printf(a + seq!['\n'] + r, m) == if trim_left(a) == seq!['c', 'a', 'l', 'l', ' ', 'p', 'r', 'i', 'n', 't', 'f'] {
            Some(m)
        } else {
            match step(m, a) {
                None => None,
                Some(m1) => run_to_printf(r, m1),
            }
        },
{
    reveal(run_to_printf);
    let s = a + seq!['\n'] + r;
    lemma_first_where_unique(s, |c: char| is_newline(c), a.len() as int);
    assert(s.take(a.len() as int) =~= a);
    assert(s.skip(a.len() as int + 1) =~= r);
}

proof fn lemma_reg64_r(r: Seq<char>)
    requires
        r.len() == 3,
        r[0] == 'r',
    ensures
        reg64(r) == r,
{
    assert(r != seq!['e', 'd', 'i']) by { assert(seq!['e', 'd', 'i'][0] == 'e'); }
    assert(r != seq!['e', 's', 'i']) by { assert(seq!['e', 's', 'i'][0] == 'e'); }
    assert(r != seq!['e', 'a', 'x']) by { assert(seq!['e', 'a', 'x'][0] == 'e'); }
}

/// Line `k` of `print_bool`, up to its call of `printf`.
#[verifier::opaque]
spec fn pb_line(k: int) -> Seq<char> {
    if k == 0 {
        seq!['p', 'r', 'i', 'n', 't', '_', 'b', 'o', 'o', 'l', ':']
    } else     if k == 1 {
        seq![' ', ' ', ' ', ' ', 'p', 'u', 's', 'h', ' ', 'r', 'b', 'p']
    } else     if k == 2 {
        seq![' ', ' ', ' ', ' ', 'm', 'o', 'v', ' ', 'r', 'b', 'p', ',', ' ', 'r', 's', 'p']
    } else     if k == 3 {
        seq![' ', ' ', ' ', ' ', 'l', 'e', 'a', ' ', 'r', 's', 'i', ',', ' ', '[', 'r', 'e', 'l', ' ', 's', 't', 'r', '_', 't', 'r', 'u', 'e', ']']
    } else     if k == 4 {
        seq![' ', ' ', ' ', ' ', 'l', 'e', 'a', ' ', 'r', 'a', 'x', ',', ' ', '[', 'r', 'e', 'l', ' ', 's', 't', 'r', '_', 'f', 'a', 'l', 's', 'e', ']']
    } else     if k == 5 {
        seq![' ', ' ', ' ', ' ', 't', 'e', 's', 't', ' ', 'e', 'd', 'i', ',', ' ', 'e', 'd', 'i']
    } else     if k == 6 {
        seq![' ', ' ', ' ', ' ', 'c', 'm', 'o', 'v', 'z', ' ', 'r', 's', 'i', ',', ' ', 'r', 'a', 'x']
    } else     if k == 7 {
        seq![' ', ' ', ' ', ' ', 'l', 'e', 'a', ' ', 'r', 'd', 'i', ',', ' ', '[', 'r', 'e', 'l', ' ', 'f', 'm', 't', '_', 'b', 'o', 'o', 'l', ']']
    } else     if k == 8 {
        seq![' ', ' ', ' ', ' ', 'x', 'o', 'r', ' ', 'e', 'a', 'x', ',', ' ', 'e', 'a', 'x']
    } else     if k == 9 {
        seq![' ', ' ', ' ', ' ', 'c', 'a', 'l', 'l', ' ', 'p', 'r', 'i', 'n', 't', 'f']
    } else {
        seq![' ', ' ', ' ', ' ', 'p', 'o', 'p', ' ', 'r', 'b', 'p', '\n', ' ', ' ', ' ', ' ', 'r', 'e', 't', '\n', '\n', ' ', ' ', ' ', ' ']
    }
}

/// The text of `print_bool` from line `k` on.
spec fn pb_from(k: int) -> Seq<char>
    decreases 10 - k,
{
    if k >= 10 {
        pb_line(10)
    } else {
        pb_line(k) + seq!['\n'] + pb_from(k + 1)
    }
}

proof fn lemma_pb_text()
    ensures
        builtin_code(2) == pb_from(0),
{
    reveal(pb_line);
    reveal_strlit("print_bool:
    push rbp
    mov rbp, rsp
    lea rsi, [rel str_true]
    lea rax, [rel str_false]
    test edi, edi
    cmovz rsi, rax
    lea rdi, [rel fmt_bool]
    xor eax, eax
    call printf
    pop rbp
    ret\n
    ");
    reveal_with_fuel(pb_from, 11);
    assert(builtin_code(2) =~= pb_from(0));
}

spec fn rdi() -> Seq<char> { seq!['r', 'd', 'i'] }
spec fn rsi() -> Seq<char> { seq!['r', 's', 'i'] }
spec fn rax() -> Seq<char> { seq!['r', 'a', 'x'] }
spec fn rbp() -> Seq<char> { seq!['r', 'b', 'p'] }
spec fn rsp() -> Seq<char> { seq!['r', 's', 'p'] }
spec fn str_true() -> Seq<char> { seq!['s', 't', 'r', '_', 't', 'r', 'u', 'e'] }
spec fn str_false() -> Seq<char> { seq!['s', 't', 'r', '_', 'f', 'a', 'l', 's', 'e'] }
spec fn fmt_bool() -> Seq<char> { seq!['f', 'm', 't', '_', 'b', 'o', 'o', 'l'] }

proof fn lemma_pb_plain(m: Machine, k: int)
    requires
        k == 0 || k == 1,
    ensures
        trim_left(pb_line(k)) != seq!['c', 'a', 'l', 'l', ' ', 'p', 'r', 'i', 'n', 't', 'f'],
        step(m, pb_line(k)) == Some(m),
{
    reveal(step);
    reveal(pb_line);
    reveal_with_fuel(trim_left, 6);
    let l = pb_line(k);
    if k == 1 {
        let t = trim_left(l);
        assert(t =~= l.skip(4));
        assert(t.take(4) =~= seq!['p', 'u', 's', 'h']);
    } else {
        assert(trim_left(l) == l);
        assert(l[0] != 'c');
    }
}

proof fn lemma_pb_mov(m: Machine)
    requires
        m.regs.dom().contains(rsp()),
    ensures
        trim_left(pb_line(2)) != seq!['c', 'a', 'l', 'l', ' ', 'p', 'r', 'i', 'n', 't', 'f'],
        step(m, pb_line(2)) == Some(Machine { regs: m.regs.insert(rbp(), m.regs[rsp()]), ..m }),
{
    reveal(step);
    reveal(pb_line);
    reveal_with_fuel(trim_left, 6);
    let l = pb_line(2);
    let t = trim_left(l);
    assert(t =~= l.skip(4));
    assert(t.take(3) =~= seq!['m', 'o', 'v']);
    assert(t.subrange(4, 7) =~= rbp());
    assert(t.subrange(9, 12) =~= rsp());
    lemma_reg64_r(rbp());
    lemma_reg64_r(rsp());
}

proof fn lemma_pb_lea(m: Machine, k: int, r: Seq<char>, lab: Seq<char>)
    requires
        (k == 3 && r == rsi() && lab == str_true()) || (k == 4 && r == rax() && lab == str_false())
            || (k == 7 && r == rdi() && lab == fmt_bool()),
    ensures
        trim_left(pb_line(k)) != seq!['c', 'a', 'l', 'l', ' ', 'p', 'r', 'i', 'n', 't', 'f'],
        step(m, pb_line(k)) == Some(Machine { regs: m.regs.insert(r, Val::Addr(lab)), ..m }),
{
    reveal(step);
    reveal(pb_line);
    reveal_with_fuel(trim_left, 6);
    let l = pb_line(k);
    let t = trim_left(l);
    assert(t =~= l.skip(4));
    assert(t.take(4) =~= seq!['l', 'e', 'a', ' ']);
    assert(t.subrange(7, 14) =~= seq![',', ' ', '[', 'r', 'e', 'l', ' ']);
    assert(t.subrange(4, 7) =~= r);
    assert(t.subrange(14, t.len() - 1) =~= lab);
    lemma_reg64_r(r);
}

proof fn lemma_pb_test(m: Machine)
    requires
        m.regs.dom().contains(rdi()),
        m.regs[rdi()] is Num,
    ensures
        trim_left(pb_line(5)) != seq!['c', 'a', 'l', 'l', ' ', 'p', 'r', 'i', 'n', 't', 'f'],
        step(m, pb_line(5)) == Some(Machine { zf: m.regs[rdi()]->Num_0 == 0, ..m }),
{
    reveal(step);
    reveal(pb_line);
    reveal_with_fuel(trim_left, 6);
    let l = pb_line(5);
    let t = trim_left(l);
    assert(t =~= l.skip(4));
    assert(t.take(4) =~= seq!['t', 'e', 's', 't']);
    let edi = seq!['e', 'd', 'i'];
    assert(t.subrange(5, 8) =~= edi);
    assert(t.subrange(10, 13) =~= edi);
    assert(reg64(edi) == rdi());
}

proof fn lemma_pb_cmov(m: Machine)
    requires
        m.regs.dom().contains(rax()),
    ensures
        trim_left(pb_line(6)) != seq!['c', 'a', 'l', 'l', ' ', 'p', 'r', 'i', 'n', 't', 'f'],
        step(m, pb_line(6)) == Some(if m.zf { Machine { regs: m.regs.insert(rsi(), m.regs[rax()]), ..m } } else { m }),
{
    reveal(step);
    reveal(pb_line);
    reveal_with_fuel(trim_left, 6);
    let l = pb_line(6);
    let t = trim_left(l);
    assert(t =~= l.skip(4));
    assert(t.take(5) =~= seq!['c', 'm', 'o', 'v', 'z']);
    assert(t.subrange(6, 9) =~= rsi());
    assert(t.subrange(11, 14) =~= rax());
    lemma_reg64_r(rsi());
    lemma_reg64_r(rax());
}

proof fn lemma_pb_xor(m: Machine)
    ensures
        trim_left(pb_line(8)) != seq!['c', 'a', 'l', 'l', ' ', 'p', 'r', 'i', 'n', 't', 'f'],
        step(m, pb_line(8)) == Some(Machine { regs: m.regs.insert(rax(), Val::Num(0)), ..m }),
{
    reveal(step);
    reveal(pb_line);
    reveal_with_fuel(trim_left, 6);
    let l = pb_line(8);
    let t = trim_left(l);
    assert(t =~= l.skip(4));
    assert(t.take(3) =~= seq!['x', 'o', 'r']);
    assert(t.take(3) != seq!['m', 'o', 'v']) by {
        assert(t.take(3)[0] != seq!['m', 'o', 'v'][0]);
    }
    let eax = seq!['e', 'a', 'x'];
    assert(t.subrange(4, 7) =~= eax);
    assert(t.subrange(9, 12) =~= eax);
    assert(reg64(eax) == rax()) by {
        assert(eax[1] != seq!['e', 'd', 'i'][1] && eax[1] != seq!['e', 's', 'i'][1]);
    }
}

proof fn lemma_pb_call()
    ensures
        trim_left(pb_line(9)) == seq!['c', 'a', 'l', 'l', ' ', 'p', 'r', 'i', 'n', 't', 'f'],
{
    reveal(pb_line);
    reveal_with_fuel(trim_left, 6);
    assert(trim_left(pb_line(9)) =~= pb_line(9).skip(4));
}

proof fn lemma_pb_lines()
    ensures
        forall|k: int, i: int| 0 <= k < 10 && 0 <= i < pb_line(k).len() ==> #[trigger] pb_line(k)[i] != '\n',
{
    reveal(pb_line);
}

/// The machine on entry to a function called with `arg` in `rdi` and the
/// stack pointer at `sp`.
pub open spec fn entry_state(arg: Val, sp: int) -> Machine {
    Machine {
        regs: Map::empty().insert(seq!['r', 'd', 'i'], arg).insert(seq!['r', 's', 'p'], Val::Num(sp)),
        zf: false,
    }
}

/// `print_bool`, called with a value `v`, reaches its call of `printf` with
/// the format `fmt_bool` in `rdi`, no vector arguments counted in `rax`, and
/// in `rsi` the text `str_true` when `v` is not zero and `str_false` when it
/// is zero.
#[verifier::spinoff_prover]
#[verifier::rlimit(40)]
pub proof fn lemma_print_bool_selects(v: int, sp: int)
    ensures
        crate::enbeded_funcs::builtin_name(2) == seq!['p', 'r', 'i', 'n', 't', '_', 'b', 'o', 'o', 'l'],
        run_to_printf(builtin_code(2), entry_state(Val::Num(v), sp)) matches Some(m)
            && m.regs.dom().contains(seq!['r', 's', 'i'])
            && m.regs[seq!['r', 's', 'i']] == Val::Addr(
                if v != 0 {
                    seq!['s', 't', 'r', '_', 't', 'r', 'u', 'e']
                } else {
                    seq!['s', 't', 'r', '_', 'f', 'a', 'l', 's', 'e']
                },
            )
            && m.regs.dom().contains(seq!['r', 'd', 'i'])
            && m.regs[seq!['r', 'd', 'i']] == Val::Addr(seq!['f', 'm', 't', '_', 'b', 'o', 'o', 'l'])
            && m.regs.dom().contains(seq!['r', 'a', 'x'])
            && m.regs[seq!['r', 'a', 'x']] == Val::Num(0),
{
    lemma_pb_text();
    lemma_pb_lines();
    let m0 = entry_state(Val::Num(v), sp);
    let m1 = m0;
    let m2 = m1;
    let m3 = Machine { regs: m2.regs.insert(rbp(), Val::Num(sp)), ..m2 };
    let m4 = Machine { regs: m3.regs.insert(rsi(), Val::Addr(str_true())), ..m3 };
    let m5 = Machine { regs: m4.regs.insert(rax(), Val::Addr(str_false())), ..m4 };
    let m6 = Machine { zf: v == 0, ..m5 };
    let m7 = if v == 0 { Machine { regs: m6.regs.insert(rsi(), Val::Addr(str_false())), ..m6 } } else { m6 };
    let m8 = Machine { regs: m7.regs.insert(rdi(), Val::Addr(fmt_bool())), ..m7 };
    let m9 = Machine { regs: m8.regs.insert(rax(), Val::Num(0)), ..m8 };
    assert(rdi() != rsp() && rdi() != rbp() && rdi() != rsi() && rdi() != rax()) by {
        assert(rdi()[1] != rsp()[1] && rdi()[1] != rbp()[1] && rdi()[1] != rsi()[1] && rdi()[1] != rax()[1]);
    }
    assert(rsi() != rax()) by {
        assert(rsi()[1] != rax()[1]);
    }
    lemma_pb_plain(m0, 0);
    lemma_pb_plain(m1, 1);
    lemma_pb_mov(m2);
    lemma_pb_lea(m3, 3, rsi(), str_true());
    lemma_pb_lea(m4, 4, rax(), str_false());
    lemma_pb_test(m5);
    lemma_pb_cmov(m6);
    lemma_pb_lea(m7, 7, rdi(), fmt_bool());
    lemma_pb_xor(m8);
    lemma_pb_call();
    lemma_run_line(pb_line(0), pb_from(1), m0);
    lemma_run_line(pb_line(1), pb_from(2), m1);
    lemma_run_line(pb_line(2), pb_from(3), m2);
    lemma_run_line(pb_line(3), pb_from(4), m3);
    lemma_run_line(pb_line(4), pb_from(5), m4);
    lemma_run_line(pb_line(5), pb_from(6), m5);
    lemma_run_line(pb_line(6), pb_from(7), m6);
    lemma_run_line(pb_line(7), pb_from(8), m7);
    lemma_run_line(pb_line(8), pb_from(9), m8);
    lemma_run_line(pb_line(9), pb_from(10), m9);
    assert(pb_from(0) == pb_line(0) + seq!['\n'] + pb_from(1));
    assert(pb_from(1) == pb_line(1) + seq!['\n'] + pb_from(2));
    assert(pb_from(2) == pb_line(2) + seq!['\n'] + pb_from(3));
    assert(pb_from(3) == pb_line(3) + seq!['\n'] + pb_from(4));
    assert(pb_from(4) == pb_line(4) + seq!['\n'] + pb_from(5));
    assert(pb_from(5) == pb_line(5) + seq!['\n'] + pb_from(6));
    assert(pb_from(6) == pb_line(6) + seq!['\n'] + pb_from(7));
    assert(pb_from(7) == pb_line(7) + seq!['\n'] + pb_from(8));
    assert(pb_from(8) == pb_line(8) + seq!['\n'] + pb_from(9));
    assert(pb_from(9) == pb_line(9) + seq!['\n'] + pb_from(10));
    assert(run_to_printf(pb_from(9), m9) == Some(m9));
    assert(run_to_printf(pb_from(8), m8) == Some(m9));
    assert(run_to_printf(pb_from(7), m7) == Some(m9));
    assert(run_to_printf(pb_from(6), m6) == Some(m9));
    assert(run_to_printf(pb_from(5), m5) == Some(m9));
    assert(run_to_printf(pb_from(4), m4) == Some(m9));
    assert(run_to_printf(pb_from(3), m3) == Some(m9));
    assert(run_to_printf(pb_from(2), m2) == Some(m9));
    assert(run_to_printf(pb_from(1), m1) == Some(m9));
    assert(run_to_printf(pb_from(0), m0) == Some(m9));
}

/// Line `k` of the built-in function `i` that passes its argument on to
/// `printf` (`print_int`, `print_string`, `print_char`), up to that call.
#[verifier::opaque]
spec fn pp_line(i: int, k: int) -> Seq<char> {
    if i == 0 {
        if k == 0 {
            seq!['p', 'r', 'i', 'n', 't', '_', 'i', 'n', 't', ':']
        } else if k == 1 {
            seq![' ', ' ', ' ', ' ', 'p', 'u', 's', 'h', ' ', 'r', 'b', 'p']
        } else if k == 2 {
            seq![' ', ' ', ' ', ' ', 'm', 'o', 'v', ' ', 'r', 'b', 'p', ',', ' ', 'r', 's', 'p']
        } else if k == 3 {
            seq![' ', ' ', ' ', ' ', 'm', 'o', 'v', ' ', 'e', 's', 'i', ',', ' ', 'e', 'd', 'i']
        } else if k == 4 {
            seq![' ', ' ', ' ', ' ', 'l', 'e', 'a', ' ', 'r', 'd', 'i', ',', ' ', '[', 'r', 'e', 'l', ' ', 'f', 'm', 't', '_', 'i', 'n', 't', ']']
        } else if k == 5 {
            seq![' ', ' ', ' ', ' ', 'x', 'o', 'r', ' ', 'e', 'a', 'x', ',', ' ', 'e', 'a', 'x']
        } else if k == 6 {
            seq![' ', ' ', ' ', ' ', 'c', 'a', 'l', 'l', ' ', 'p', 'r', 'i', 'n', 't', 'f']
        } else {
            seq![' ', ' ', ' ', ' ', 'p', 'o', 'p', ' ', 'r', 'b', 'p', '\n', ' ', ' ', ' ', ' ', 'r', 'e', 't', '\n', '\n', ' ', ' ', ' ', ' ']
        }
    } else if i == 3 {
        if k == 0 {
            seq!['p', 'r', 'i', 'n', 't', '_', 's', 't', 'r', 'i', 'n', 'g', ':']
        } else if k == 1 {
            seq![' ', ' ', ' ', ' ', 'p', 'u', 's', 'h', ' ', 'r', 'b', 'p']
        } else if k == 2 {
            seq![' ', ' ', ' ', ' ', 'm', 'o', 'v', ' ', 'r', 'b', 'p', ',', ' ', 'r', 's', 'p']
        } else if k == 3 {
            seq![' ', ' ', ' ', ' ', 'm', 'o', 'v', ' ', 'r', 's', 'i', ',', ' ', 'r', 'd', 'i']
        } else if k == 4 {
            seq![' ', ' ', ' ', ' ', 'l', 'e', 'a', ' ', 'r', 'd', 'i', ',', ' ', '[', 'r', 'e', 'l', ' ', 'f', 'm', 't', '_', 's', 't', 'r', 'i', 'n', 'g', ']']
        } else if k == 5 {
            seq![' ', ' ', ' ', ' ', 'x', 'o', 'r', ' ', 'e', 'a', 'x', ',', ' ', 'e', 'a', 'x']
        } else if k == 6 {
            seq![' ', ' ', ' ', ' ', 'c', 'a', 'l', 'l', ' ', 'p', 'r', 'i', 'n', 't', 'f']
        } else {
            seq![' ', ' ', ' ', ' ', 'p', 'o', 'p', ' ', 'r', 'b', 'p', '\n', ' ', ' ', ' ', ' ', 'r', 'e', 't', '\n', '\n', ' ', ' ', ' ', ' ']
        }
    } else if i == 4 {
        if k == 0 {
            seq!['p', 'r', 'i', 'n', 't', '_', 'c', 'h', 'a', 'r', ':']
        } else if k == 1 {
            seq![' ', ' ', ' ', ' ', 'p', 'u', 's', 'h', ' ', 'r', 'b', 'p']
        } else if k == 2 {
            seq![' ', ' ', ' ', ' ', 'm', 'o', 'v', ' ', 'r', 'b', 'p', ',', ' ', 'r', 's', 'p']
        } else if k == 3 {
            seq![' ', ' ', ' ', ' ', 'm', 'o', 'v', ' ', 'e', 's', 'i', ',', ' ', 'e', 'd', 'i']
        } else if k == 4 {
            seq![' ', ' ', ' ', ' ', 'l', 'e', 'a', ' ', 'r', 'd', 'i', ',', ' ', '[', 'r', 'e', 'l', ' ', 'f', 'm', 't', '_', 'c', 'h', 'a', 'r', ']']
        } else if k == 5 {
            seq![' ', ' ', ' ', ' ', 'x', 'o', 'r', ' ', 'e', 'a', 'x', ',', ' ', 'e', 'a', 'x']
        } else if k == 6 {
            seq![' ', ' ', ' ', ' ', 'c', 'a', 'l', 'l', ' ', 'p', 'r', 'i', 'n', 't', 'f']
        } else {
            seq![' ', ' ', ' ', ' ', 'p', 'o', 'p', ' ', 'r', 'b', 'p', '\n', ' ', ' ', ' ', ' ', 'r', 'e', 't', '\n', '\n', ' ', ' ', ' ', ' ']
        }
    } else {
        seq![]
    }
}

/// The text of built-in function `i` from line `k` on.
spec fn pp_from(i: int, k: int) -> Seq<char>
    decreases 7 - k,
{
    if k >= 7 {
        pp_line(i, 7)
    } else {
        pp_line(i, k) + seq!['\n'] + pp_from(i, k + 1)
    }
}

/// The format label that built-in function `i` hands to `printf`.
pub open spec fn print_format(i: int) -> Seq<char> {
    if i == 0 {
        seq!['f', 'm', 't', '_', 'i', 'n', 't']
    } else if i == 3 {
        seq!['f', 'm', 't', '_', 's', 't', 'r', 'i', 'n', 'g']
    } else {
        seq!['f', 'm', 't', '_', 'c', 'h', 'a', 'r']
    }
}

proof fn lemma_pp_text(i: int)
    requires
        i == 0 || i == 3 || i == 4,
    ensures
        builtin_code(i) == pp_from(i, 0),
{
    reveal(pp_line);
    reveal_strlit("print_int:
    push rbp
    mov rbp, rsp
    mov esi, edi
    lea rdi, [rel fmt_int]
    xor eax, eax
    call printf
    pop rbp
    ret\n
    ");
    reveal_strlit("print_string:
    push rbp
    mov rbp, rsp
    mov rsi, rdi
    lea rdi, [rel fmt_string]
    xor eax, eax
    call printf
    pop rbp
    ret\n
    ");
    reveal_strlit("print_char:
    push rbp
    mov rbp, rsp
    mov esi, edi
    lea rdi, [rel fmt_char]
    xor eax, eax
    call printf
    pop rbp
    ret\n
    ");
    reveal_with_fuel(pp_from, 8);
    assert(builtin_code(i) =~= pp_from(i, 0));
}

proof fn lemma_pp_plain(m: Machine, i: int, k: int)
    requires
        i == 0 || i == 3 || i == 4,
        k == 0 || k == 1,
    ensures
        trim_left(pp_line(i, k)) != seq!['c', 'a', 'l', 'l', ' ', 'p', 'r', 'i', 'n', 't', 'f'],
        step(m, pp_line(i, k)) == Some(m),
{
    reveal(step);
    reveal(pp_line);
    reveal_with_fuel(trim_left, 6);
    let l = pp_line(i, k);
    if k == 1 {
        let t = trim_left(l);
        assert(t =~= l.skip(4));
        assert(t.take(4) =~= seq!['p', 'u', 's', 'h']);
    } else {
        assert(trim_left(l) == l);
        assert(l[0] != 'c');
    }
}

proof fn lemma_pp_mov_frame(m: Machine, i: int)
    requires
        i == 0 || i == 3 || i == 4,
        m.regs.dom().contains(rsp()),
    ensures
        trim_left(pp_line(i, 2)) != seq!['c', 'a', 'l', 'l', ' ', 'p', 'r', 'i', 'n', 't', 'f'],
        step(m, pp_line(i, 2)) == Some(Machine { regs: m.regs.insert(rbp(), m.regs[rsp()]), ..m }),
{
    reveal(step);
    reveal(pp_line);
    reveal_with_fuel(trim_left, 6);
    let l = pp_line(i, 2);
    let t = trim_left(l);
    assert(t =~= l.skip(4));
    assert(t.take(3) =~= seq!['m', 'o', 'v']);
    assert(t.subrange(4, 7) =~= rbp());
    assert(t.subrange(9, 12) =~= rsp());
    lemma_reg64_r(rbp());
    lemma_reg64_r(rsp());
}

proof fn lemma_pp_mov_arg(m: Machine, i: int)
    requires
        i == 0 || i == 3 || i == 4,
        m.regs.dom().contains(rdi()),
    ensures
        trim_left(pp_line(i, 3)) != seq!['c', 'a', 'l', 'l', ' ', 'p', 'r', 'i', 'n', 't', 'f'],
        step(m, pp_line(i, 3)) == Some(Machine { regs: m.regs.insert(rsi(), m.regs[rdi()]), ..m }),
{
    reveal(step);
    reveal(pp_line);
    reveal_with_fuel(trim_left, 6);
    let l = pp_line(i, 3);
    let t = trim_left(l);
    assert(t =~= l.skip(4));
    assert(t.take(3) =~= seq!['m', 'o', 'v']);
    let edi = seq!['e', 'd', 'i'];
    let esi = seq!['e', 's', 'i'];
    assert(reg64(edi) == rdi());
    assert(reg64(esi) == rsi()) by {
        assert(esi[1] != edi[1]);
    }
    lemma_reg64_r(rsi());
    lemma_reg64_r(rdi());
    if i == 3 {
        assert(t.subrange(4, 7) =~= rsi());
        assert(t.subrange(9, 12) =~= rdi());
    } else {
        assert(t.subrange(4, 7) =~= esi);
        assert(t.subrange(9, 12) =~= edi);
    }
}

proof fn lemma_pp_lea(m: Machine, i: int)
    requires
        i == 0 || i == 3 || i == 4,
    ensures
        trim_left(pp_line(i, 4)) != seq!['c', 'a', 'l', 'l', ' ', 'p', 'r', 'i', 'n', 't', 'f'],
        step(m, pp_line(i, 4)) == Some(Machine { regs: m.regs.insert(rdi(), Val::Addr(print_format(i))), ..m }),
{
    reveal(step);
    reveal(pp_line);
    reveal_with_fuel(trim_left, 6);
    let l = pp_line(i, 4);
    let t = trim_left(l);
    assert(t =~= l.skip(4));
    assert(t.take(4) =~= seq!['l', 'e', 'a', ' ']);
    assert(t.subrange(7, 14) =~= seq![',', ' ', '[', 'r', 'e', 'l', ' ']);
    assert(t.subrange(4, 7) =~= rdi());
    assert(t.subrange(14, t.len() - 1) =~= print_format(i));
    lemma_reg64_r(rdi());
}

proof fn lemma_pp_xor(m: Machine, i: int)
    requires
        i == 0 || i == 3 || i == 4,
    ensures
        trim_left(pp_line(i, 5)) != seq!['c', 'a', 'l', 'l', ' ', 'p', 'r', 'i', 'n', 't', 'f'],
        step(m, pp_line(i, 5)) == Some(Machine { regs: m.regs.insert(rax(), Val::Num(0)), ..m }),
{
    reveal(step);
    reveal(pp_line);
    reveal_with_fuel(trim_left, 6);
    let l = pp_line(i, 5);
    let t = trim_left(l);
    assert(t =~= l.skip(4));
    assert(t.take(3) =~= seq!['x', 'o', 'r']);
    assert(t.take(3) != seq!['m', 'o', 'v']) by {
        assert(t.take(3)[0] != seq!['m', 'o', 'v'][0]);
    }
    let eax = seq!['e', 'a', 'x'];
    assert(t.subrange(4, 7) =~= eax);
    assert(t.subrange(9, 12) =~= eax);
    assert(reg64(eax) == rax()) by {
        assert(eax[1] != seq!['e', 'd', 'i'][1] && eax[1] != seq!['e', 's', 'i'][1]);
    }
}

proof fn lemma_pp_call(i: int)
    requires
        i == 0 || i == 3 || i == 4,
    ensures
        trim_left(pp_line(i, 6)) == seq!['c', 'a', 'l', 'l', ' ', 'p', 'r', 'i', 'n', 't', 'f'],
        forall|k: int, j: int| 0 <= k < 7 && 0 <= j < pp_line(i, k).len() ==> #[trigger] pp_line(i, k)[j] != '\n',
{
    reveal(pp_line);
    reveal_with_fuel(trim_left, 6);
    assert(trim_left(pp_line(i, 6)) =~= pp_line(i, 6).skip(4));
}

/// `print_int`, `print_string` and `print_char`, called with an argument,
/// reach their call of `printf` with that argument in `rsi`, their own
/// format (`fmt_int`, `fmt_string`, `fmt_char`) in `rdi`, and no vector
/// arguments counted in `rax`.
#[verifier::spinoff_prover]
#[verifier::rlimit(40)]
proof fn lemma_pp_run(i: int, arg: Val, sp: int)
    requires
        i == 0 || i == 3 || i == 4,
    ensures
        run_to_printf(pp_from(i, 0), entry_state(arg, sp)) == Some(Machine {
            regs: entry_state(arg, sp).regs.insert(rbp(), Val::Num(sp)).insert(rsi(), arg).insert(
                rdi(),
                Val::Addr(print_format(i)),
            ).insert(rax(), Val::Num(0)),
            zf: false,
        }),
{
    lemma_pp_call(i);
    let m0 = entry_state(arg, sp);
    let m1 = m0;
    let m2 = m1;
    let m3 = Machine { regs: m2.regs.insert(rbp(), Val::Num(sp)), ..m2 };
    let m4 = Machine { regs: m3.regs.insert(rsi(), arg), ..m3 };
    let m5 = Machine { regs: m4.regs.insert(rdi(), Val::Addr(print_format(i))), ..m4 };
    let m6 = Machine { regs: m5.regs.insert(rax(), Val::Num(0)), ..m5 };
    assert(m3.regs.dom().contains(rdi()) && m3.regs[rdi()] == arg) by {
        assert(rdi()[1] != rbp()[1] && rdi()[1] != rsp()[1]);
    }
    lemma_pp_plain(m0, i, 0);
    lemma_pp_plain(m1, i, 1);
    lemma_pp_mov_frame(m2, i);
    lemma_pp_mov_arg(m3, i);
    lemma_pp_lea(m4, i);
    lemma_pp_xor(m5, i);
    assert(run_to_printf(pp_from(i, 6), m6) == Some(m6)) by {
        assert(pp_from(i, 6) == pp_line(i, 6) + seq!['\n'] + pp_from(i, 7));
        lemma_run_line(pp_line(i, 6), pp_from(i, 7), m6);
    }
    assert(run_to_printf(pp_from(i, 5), m5) == Some(m6)) by {
        assert(pp_from(i, 5) == pp_line(i, 5) + seq!['\n'] + pp_from(i, 6));
        lemma_run_line(pp_line(i, 5), pp_from(i, 6), m5);
    }
    assert(run_to_printf(pp_from(i, 4), m4) == Some(m6)) by {
        assert(pp_from(i, 4) == pp_line(i, 4) + seq!['\n'] + pp_from(i, 5));
        lemma_run_line(pp_line(i, 4), pp_from(i, 5), m4);
    }
    assert(run_to_printf(pp_from(i, 3), m3) == Some(m6)) by {
        assert(pp_from(i, 3) == pp_line(i, 3) + seq!['\n'] + pp_from(i, 4));
        lemma_run_line(pp_line(i, 3), pp_from(i, 4), m3);
    }
    assert(run_to_printf(pp_from(i, 2), m2) == Some(m6)) by {
        assert(pp_from(i, 2) == pp_line(i, 2) + seq!['\n'] + pp_from(i, 3));
        lemma_run_line(pp_line(i, 2), pp_from(i, 3), m2);
    }
    assert(run_to_printf(pp_from(i, 1), m1) == Some(m6)) by {
        assert(pp_from(i, 1) == pp_line(i, 1) + seq!['\n'] + pp_from(i, 2));
        lemma_run_line(pp_line(i, 1), pp_from(i, 2), m1);
    }
    assert(run_to_printf(pp_from(i, 0), m0) == Some(m6)) by {
        assert(pp_from(i, 0) == pp_line(i, 0) + seq!['\n'] + pp_from(i, 1));
        lemma_run_line(pp_line(i, 0), pp_from(i, 1), m0);
    }
}

/// `print_int`, `print_string` and `print_char`, called with an argument,
/// reach their call of `printf` with that argument in `rsi`, their own
/// format (`fmt_int`, `fmt_string`, `fmt_char`) in `rdi`, and no vector
/// arguments counted in `rax`.
pub proof fn lemma_print_passes_argument(i: int, arg: Val, sp: int)
    requires
        i == 0 || i == 3 || i == 4,
    ensures
        i == 0 ==> crate::enbeded_funcs::builtin_name(i) == seq!['p', 'r', 'i', 'n', 't', '_', 'i', 'n', 't'],
        i == 3 ==> crate::enbeded_funcs::builtin_name(i) == seq!['p', 'r', 'i', 'n', 't', '_', 's', 't', 'r', 'i', 'n', 'g'],
        i == 4 ==> crate::enbeded_funcs::builtin_name(i) == seq!['p', 'r', 'i', 'n', 't', '_', 'c', 'h', 'a', 'r'],
        run_to_printf(builtin_code(i), entry_state(arg, sp)) matches Some(m)
            && m.regs.dom().contains(seq!['r', 's', 'i'])
            && m.regs[seq!['r', 's', 'i']] == arg
            && m.regs.dom().contains(seq!['r', 'd', 'i'])
            && m.regs[seq!['r', 'd', 'i']] == Val::Addr(print_format(i))
            && m.regs.dom().contains(seq!['r', 'a', 'x'])
            && m.regs[seq!['r', 'a', 'x']] == Val::Num(0),
{
    lemma_pp_text(i);
    lemma_pp_run(i, arg, sp);
    assert(rdi() != rsi() && rdi() != rax()) by {
        assert(rdi()[1] != rsi()[1] && rdi()[1] != rax()[1]);
    }
    assert(rsi() != rax()) by {
        assert(rsi()[1] != rax()[1]);
    }
}

} // verus!
