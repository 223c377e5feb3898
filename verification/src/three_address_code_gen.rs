//! Lowering of the symbol table into three-address code: every expression
//! becomes a sequence of instructions with at most one operator, with fresh
//! temporaries `_tN` for intermediate results and labels `LN` for branches.
use vstd::prelude::*;
use crate::token::{TokenType, Scope, opt_canon, token_text, str_debug, lemma_canon_text};
use crate::text::{
    chars_of, chars_eq, string_from, push_all, push_decimal, decimal, string_of_char,
    lemma_decimal_injective,
};
use crate::variable_types::{
    Variable, Function, Reasingment, FunctionCall, Conditional, Loop, Return, Value,
    PointerType, TableTypes, ValueM, VarM, FuncM, ReasM, CallM, RetM, TableM, array_split,
    array_split_chars, tables_view, values_view, table_view, value_view,
};

verus! {

/// An operator of three-address code.
#[derive(Debug, Clone, Copy, PartialEq, Eq, Structural)]
pub enum Operator {
    Plus,
    Minus,
    Multiplication,
    Division,
    Equals,
    LogicalEquals,
    NotEquals,
    GreaterThan,
    LessThan,
    GreaterThanEquals,
    LessThanEquals,
    LogicalAnd,
    LogicalOr,
    Not,
    RightBitShift,
    LeftBitShift,
    And,
    Or,
    Unknow,
}

/// The operator that `Operator::from_str` gives a word.
pub open spec fn op_of(s: Seq<char>) -> Operator {
    if s == seq!['+'] {
        Operator::Plus
    } else if s == seq!['-'] {
        Operator::Minus
    } else if s == seq!['*'] {
        Operator::Multiplication
    } else if s == seq!['/'] {
        Operator::Division
    } else if s == seq!['='] {
        Operator::Equals
    } else if s == seq!['=', '='] {
        Operator::LogicalEquals
    } else if s == seq!['!', '='] {
        Operator::NotEquals
    } else if s == seq!['>'] {
        Operator::GreaterThan
    } else if s == seq!['<'] {
        Operator::LessThan
    } else if s == seq!['&', '&'] {
        Operator::LogicalAnd
    } else if s == seq!['|', '|'] {
        Operator::LogicalOr
    } else if s == seq!['!'] {
        Operator::Not
    } else if s == seq!['>', '>'] {
        Operator::RightBitShift
    } else if s == seq!['<', '<'] {
        Operator::LeftBitShift
    } else if s == seq!['&'] {
        Operator::And
    } else if s == seq!['|'] {
        Operator::Or
    } else if s == seq!['>', '='] {
        Operator::GreaterThanEquals
    } else if s == seq!['<', '='] {
        Operator::LessThanEquals
    } else {
        Operator::Unknow
    }
}

/// How an operator is written.
pub open spec fn op_text(op: Operator) -> Seq<char> {
    match op {
        Operator::Plus => seq!['+'],
        Operator::Minus => seq!['-'],
        Operator::Multiplication => seq!['*'],
        Operator::Division => seq!['/'],
        Operator::Equals => seq!['='],
        Operator::LogicalEquals => seq!['=', '='],
        Operator::NotEquals => seq!['!', '='],
        Operator::GreaterThan => seq!['>'],
        Operator::LessThan => seq!['<'],
        Operator::GreaterThanEquals => seq!['>', '='],
        Operator::LessThanEquals => seq!['<', '='],
        Operator::LogicalAnd => seq!['&', '&'],
        Operator::LogicalOr => seq!['|', '|'],
        Operator::Not => seq!['!'],
        Operator::RightBitShift => seq!['>', '>'],
        Operator::LeftBitShift => seq!['<', '<'],
        Operator::And => seq!['&'],
        Operator::Or => seq!['|'],
        Operator::Unknow => seq!['?'],
    }
}

/// The x86-64 integer instruction of an operator, for those that have one.
pub open spec fn op_asm(op: Operator) -> Option<Seq<char>> {
    match op {
        Operator::Plus => Some(seq!['a', 'd', 'd']),
        Operator::Minus => Some(seq!['s', 'u', 'b']),
        Operator::Multiplication => Some(seq!['i', 'm', 'u', 'l']),
        Operator::RightBitShift => Some(seq!['s', 'a', 'r']),
        Operator::LeftBitShift => Some(seq!['s', 'h', 'l']),
        Operator::And => Some(seq!['a', 'n', 'd']),
        Operator::Or => Some(seq!['o', 'r']),
        _ => None,
    }
}

/// The single-precision SSE instruction of an operator, for those that have one.
pub open spec fn op_asm_f32(op: Operator) -> Option<Seq<char>> {
    match op {
        Operator::Plus => Some(seq!['a', 'd', 'd', 's', 's']),
        Operator::Minus => Some(seq!['s', 'u', 'b', 's', 's']),
        Operator::Multiplication => Some(seq!['m', 'u', 'l', 's', 's']),
        Operator::Division => Some(seq!['d', 'i', 'v', 's', 's']),
        _ => None,
    }
}

/// The double-precision SSE instruction of an operator, for those that have one.
pub open spec fn op_asm_f64(op: Operator) -> Option<Seq<char>> {
    match op {
        Operator::Plus => Some(seq!['a', 'd', 'd', 's', 'd']),
        Operator::Minus => Some(seq!['s', 'u', 'b', 's', 'd']),
        Operator::Multiplication => Some(seq!['m', 'u', 'l', 's', 'd']),
        Operator::Division => Some(seq!['d', 'i', 'v', 's', 'd']),
        _ => None,
    }
}

/// Writing an operator and reading it back gives the same operator.
#[verifier::spinoff_prover]
pub proof fn lemma_op_roundtrip(op: Operator)
    ensures
        op_of(op_text(op)) == op,
{
    match op {
        Operator::Plus => {
            assert(op_text(op) == seq!['+']);
        },
        Operator::Minus => {
            assert(op_text(op) == seq!['-']);
            assert(seq!['-'][0] != seq!['+'][0]);
        },
        Operator::Multiplication => {
            assert(op_text(op) == seq!['*']);
            assert(seq!['*'][0] != seq!['+'][0]);
            assert(seq!['*'][0] != seq!['-'][0]);
        },
        Operator::Division => {
            assert(op_text(op) == seq!['/']);
            assert(seq!['/'][0] != seq!['+'][0]);
            assert(seq!['/'][0] != seq!['-'][0]);
            assert(seq!['/'][0] != seq!['*'][0]);
        },
        Operator::Equals => {
            assert(op_text(op) == seq!['=']);
            assert(seq!['='][0] != seq!['+'][0]);
            assert(seq!['='][0] != seq!['-'][0]);
            assert(seq!['='][0] != seq!['*'][0]);
            assert(seq!['='][0] != seq!['/'][0]);
        },
        Operator::LogicalEquals => {
            assert(op_text(op) == seq!['=', '=']);
        },
        Operator::NotEquals => {
            assert(op_text(op) == seq!['!', '=']);
            assert(seq!['!', '='][0] != seq!['=', '='][0]);
        },
        Operator::GreaterThan => {
            assert(op_text(op) == seq!['>']);
            assert(seq!['>'][0] != seq!['+'][0]);
            assert(seq!['>'][0] != seq!['-'][0]);
            assert(seq!['>'][0] != seq!['*'][0]);
            assert(seq!['>'][0] != seq!['/'][0]);
            assert(seq!['>'][0] != seq!['='][0]);
        },
        Operator::LessThan => {
            assert(op_text(op) == seq!['<']);
            assert(seq!['<'][0] != seq!['+'][0]);
            assert(seq!['<'][0] != seq!['-'][0]);
            assert(seq!['<'][0] != seq!['*'][0]);
            assert(seq!['<'][0] != seq!['/'][0]);
            assert(seq!['<'][0] != seq!['='][0]);
            assert(seq!['<'][0] != seq!['>'][0]);
        },
        Operator::GreaterThanEquals => {
            assert(op_text(op) == seq!['>', '=']);
        },
        Operator::LessThanEquals => {
            assert(op_text(op) == seq!['<', '=']);
        },
        Operator::LogicalAnd => {
            assert(op_text(op) == seq!['&', '&']);
            assert(seq!['&', '&'][0] != seq!['=', '='][0]);
            assert(seq!['&', '&'][0] != seq!['!', '='][0]);
        },
        Operator::LogicalOr => {
            assert(op_text(op) == seq!['|', '|']);
            assert(seq!['|', '|'][0] != seq!['=', '='][0]);
            assert(seq!['|', '|'][0] != seq!['!', '='][0]);
            assert(seq!['|', '|'][0] != seq!['&', '&'][0]);
        },
        Operator::Not => {
            assert(op_text(op) == seq!['!']);
            assert(seq!['!'][0] != seq!['+'][0]);
            assert(seq!['!'][0] != seq!['-'][0]);
            assert(seq!['!'][0] != seq!['*'][0]);
            assert(seq!['!'][0] != seq!['/'][0]);
            assert(seq!['!'][0] != seq!['='][0]);
            assert(seq!['!'][0] != seq!['>'][0]);
            assert(seq!['!'][0] != seq!['<'][0]);
        },
        Operator::RightBitShift => {
            assert(op_text(op) == seq!['>', '>']);
            assert(seq!['>', '>'][0] != seq!['=', '='][0]);
            assert(seq!['>', '>'][0] != seq!['!', '='][0]);
            assert(seq!['>', '>'][0] != seq!['&', '&'][0]);
            assert(seq!['>', '>'][0] != seq!['|', '|'][0]);
        },
        Operator::LeftBitShift => {
            assert(op_text(op) == seq!['<', '<']);
            assert(seq!['<', '<'][0] != seq!['=', '='][0]);
            assert(seq!['<', '<'][0] != seq!['!', '='][0]);
            assert(seq!['<', '<'][0] != seq!['&', '&'][0]);
            assert(seq!['<', '<'][0] != seq!['|', '|'][0]);
            assert(seq!['<', '<'][0] != seq!['>', '>'][0]);
        },
        Operator::And => {
            assert(op_text(op) == seq!['&']);
            assert(seq!['&'][0] != seq!['+'][0]);
            assert(seq!['&'][0] != seq!['-'][0]);
            assert(seq!['&'][0] != seq!['*'][0]);
            assert(seq!['&'][0] != seq!['/'][0]);
            assert(seq!['&'][0] != seq!['='][0]);
            assert(seq!['&'][0] != seq!['>'][0]);
            assert(seq!['&'][0] != seq!['<'][0]);
            assert(seq!['&'][0] != seq!['!'][0]);
        },
        Operator::Or => {
            assert(op_text(op) == seq!['|']);
            assert(seq!['|'][0] != seq!['+'][0]);
            assert(seq!['|'][0] != seq!['-'][0]);
            assert(seq!['|'][0] != seq!['*'][0]);
            assert(seq!['|'][0] != seq!['/'][0]);
            assert(seq!['|'][0] != seq!['='][0]);
            assert(seq!['|'][0] != seq!['>'][0]);
            assert(seq!['|'][0] != seq!['<'][0]);
            assert(seq!['|'][0] != seq!['!'][0]);
            assert(seq!['|'][0] != seq!['&'][0]);
        },
        Operator::Unknow => {
            assert(seq!['?'][0] != seq!['+'][0]);
            assert(seq!['?'][0] != seq!['-'][0]);
            assert(seq!['?'][0] != seq!['*'][0]);
            assert(seq!['?'][0] != seq!['/'][0]);
            assert(seq!['?'][0] != seq!['='][0]);
            assert(seq!['?'][0] != seq!['>'][0]);
            assert(seq!['?'][0] != seq!['<'][0]);
            assert(seq!['?'][0] != seq!['!'][0]);
            assert(seq!['?'][0] != seq!['&'][0]);
            assert(seq!['?'][0] != seq!['|'][0]);
        },
    }
}

/// A string literal's characters, as a vector.
fn lit(s: &str) -> (r: Vec<char>)
    ensures
        r@ == s@,
{
    chars_of(s)
}

impl Operator {
    /// The operator written `operator`; `Unknow` for any other word.
    pub fn from_str(operator: &str) -> (r: Operator)
        ensures
            r == op_of(operator@),
    {
        let v = chars_of(operator);
        Self::from_chars(v.as_slice())
    }

    /// The operator whose characters are `s`.
    pub fn from_chars(s: &[char]) -> (r: Operator)
        ensures
            r == op_of(s@),
    {
        let k0: &[char] = &['+'];
        assert(k0@ == seq!['+']);
        let k1: &[char] = &['-'];
        assert(k1@ == seq!['-']);
        let k2: &[char] = &['*'];
        assert(k2@ == seq!['*']);
        let k3: &[char] = &['/'];
        assert(k3@ == seq!['/']);
        let k4: &[char] = &['='];
        assert(k4@ == seq!['=']);
        let k5: &[char] = &['=', '='];
        assert(k5@ == seq!['=', '=']);
        let k6: &[char] = &['!', '='];
        assert(k6@ == seq!['!', '=']);
        let k7: &[char] = &['>'];
        assert(k7@ == seq!['>']);
        let k8: &[char] = &['<'];
        assert(k8@ == seq!['<']);
        let k9: &[char] = &['&', '&'];
        assert(k9@ == seq!['&', '&']);
        let k10: &[char] = &['|', '|'];
        assert(k10@ == seq!['|', '|']);
        let k11: &[char] = &['!'];
        assert(k11@ == seq!['!']);
        let k12: &[char] = &['>', '>'];
        assert(k12@ == seq!['>', '>']);
        let k13: &[char] = &['<', '<'];
        assert(k13@ == seq!['<', '<']);
        let k14: &[char] = &['&'];
        assert(k14@ == seq!['&']);
        let k15: &[char] = &['|'];
        assert(k15@ == seq!['|']);
        let k16: &[char] = &['>', '='];
        assert(k16@ == seq!['>', '=']);
        let k17: &[char] = &['<', '='];
        assert(k17@ == seq!['<', '=']);
        if chars_eq(s, k0) {
            Operator::Plus
        } else if chars_eq(s, k1) {
            Operator::Minus
        } else if chars_eq(s, k2) {
            Operator::Multiplication
        } else if chars_eq(s, k3) {
            Operator::Division
        } else if chars_eq(s, k4) {
            Operator::Equals
        } else if chars_eq(s, k5) {
            Operator::LogicalEquals
        } else if chars_eq(s, k6) {
            Operator::NotEquals
        } else if chars_eq(s, k7) {
            Operator::GreaterThan
        } else if chars_eq(s, k8) {
            Operator::LessThan
        } else if chars_eq(s, k9) {
            Operator::LogicalAnd
        } else if chars_eq(s, k10) {
            Operator::LogicalOr
        } else if chars_eq(s, k11) {
            Operator::Not
        } else if chars_eq(s, k12) {
            Operator::RightBitShift
        } else if chars_eq(s, k13) {
            Operator::LeftBitShift
        } else if chars_eq(s, k14) {
            Operator::And
        } else if chars_eq(s, k15) {
            Operator::Or
        } else if chars_eq(s, k16) {
            Operator::GreaterThanEquals
        } else if chars_eq(s, k17) {
            Operator::LessThanEquals
        } else {
            Operator::Unknow
        }
    }

    /// How the operator is written.
    pub fn as_text(&self) -> (r: Vec<char>)
        ensures
            r@ == op_text(*self),
    {
        let mut out: Vec<char> = Vec::new();
        match self {
            Operator::Plus => push_all(&mut out, &['+']),
            Operator::Minus => push_all(&mut out, &['-']),
            Operator::Multiplication => push_all(&mut out, &['*']),
            Operator::Division => push_all(&mut out, &['/']),
            Operator::Equals => push_all(&mut out, &['=']),
            Operator::LogicalEquals => push_all(&mut out, &['=', '=']),
            Operator::NotEquals => push_all(&mut out, &['!', '=']),
            Operator::GreaterThan => push_all(&mut out, &['>']),
            Operator::LessThan => push_all(&mut out, &['<']),
            Operator::GreaterThanEquals => push_all(&mut out, &['>', '=']),
            Operator::LessThanEquals => push_all(&mut out, &['<', '=']),
            Operator::LogicalAnd => push_all(&mut out, &['&', '&']),
            Operator::LogicalOr => push_all(&mut out, &['|', '|']),
            Operator::Not => push_all(&mut out, &['!']),
            Operator::RightBitShift => push_all(&mut out, &['>', '>']),
            Operator::LeftBitShift => push_all(&mut out, &['<', '<']),
            Operator::And => push_all(&mut out, &['&']),
            Operator::Or => push_all(&mut out, &['|']),
            Operator::Unknow => out.push('?'),
        }
        assert(out@ =~= op_text(*self));
        out
    }

    /// The x86-64 integer instruction of the operator, if it has one.
    pub fn to_asm_op(&self) -> (r: Option<&'static str>)
        ensures
            match r {
                Some(s) => op_asm(*self) == Some(s@),
                None => op_asm(*self) is None,
            },
    {
        proof {
            reveal_strlit("add");
            reveal_strlit("sub");
            reveal_strlit("imul");
            reveal_strlit("sar");
            reveal_strlit("shl");
            reveal_strlit("and");
            reveal_strlit("or");
        }
        match self {
            Operator::Plus => Some("add"),
            Operator::Minus => Some("sub"),
            Operator::Multiplication => Some("imul"),
            Operator::RightBitShift => Some("sar"),
            Operator::LeftBitShift => Some("shl"),
            Operator::And => Some("and"),
            Operator::Or => Some("or"),
            _ => None,
        }
    }

    /// The single-precision SSE instruction of the operator, if it has one.
    pub fn to_asm_op_f32(&self) -> (r: Option<&'static str>)
        ensures
            match r {
                Some(s) => op_asm_f32(*self) == Some(s@),
                None => op_asm_f32(*self) is None,
            },
    {
        proof {
            reveal_strlit("addss");
            reveal_strlit("subss");
            reveal_strlit("mulss");
            reveal_strlit("divss");
        }
        match self {
            Operator::Plus => Some("addss"),
            Operator::Minus => Some("subss"),
            Operator::Multiplication => Some("mulss"),
            Operator::Division => Some("divss"),
            _ => None,
        }
    }

    /// The double-precision SSE instruction of the operator, if it has one.
    pub fn to_asm_op_f64(&self) -> (r: Option<&'static str>)
        ensures
            match r {
                Some(s) => op_asm_f64(*self) == Some(s@),
                None => op_asm_f64(*self) is None,
            },
    {
        proof {
            reveal_strlit("addsd");
            reveal_strlit("subsd");
            reveal_strlit("mulsd");
            reveal_strlit("divsd");
        }
        match self {
            Operator::Plus => Some("addsd"),
            Operator::Minus => Some("subsd"),
            Operator::Multiplication => Some("mulsd"),
            Operator::Division => Some("divsd"),
            _ => None,
        }
    }
}


/// The kind of a three-address instruction.
#[derive(Debug, Clone, Copy, PartialEq, Eq, Structural)]
pub enum Type {
    Function,
    Param,
    Variable,
    ArrayDecl,
    ArrayIndex,
    ArrayAssign,
    AddressOf,
    Deref,
    DerefAssign,
    Call,
    Reasingment,
    Conditional,
    ConditionalEnd,
    Loop,
    LoopEnd,
    Label,
    GetReturn,
    Return,
}

/// One three-address instruction.
#[derive(Debug)]
pub struct Tac {
    pub tac_type: Type,
    pub arguments: Vec<String>,
    pub operator: Option<Operator>,
    pub result: Option<String>,
    pub value_type: Option<TokenType>,
    pub is_ptr: bool,
}

/// The model of an instruction.
pub struct TacM {
    pub tac_type: Type,
    pub arguments: Seq<Seq<char>>,
    pub operator: Option<Operator>,
    pub result: Option<Seq<char>>,
    pub value_type: Option<TokenType>,
    pub is_ptr: bool,
}

pub open spec fn strings_view(s: Seq<String>) -> Seq<Seq<char>> {
    Seq::new(s.len(), |i: int| s[i]@)
}

pub open spec fn opt_str_view(o: Option<String>) -> Option<Seq<char>> {
    match o {
        Some(s) => Some(s@),
        None => None,
    }
}

impl View for Tac {
    type V = TacM;

    open spec fn view(&self) -> TacM {
        TacM {
            tac_type: self.tac_type,
            arguments: strings_view(self.arguments@),
            operator: self.operator,
            result: opt_str_view(self.result),
            value_type: opt_canon(self.value_type),
            is_ptr: self.is_ptr,
        }
    }
}

pub open spec fn tacs_view(s: Seq<Tac>) -> Seq<TacM> {
    Seq::new(s.len(), |i: int| s[i]@)
}

/// The state of the generator: the instructions so far, the counters of
/// temporaries and labels, the stack bytes of the current function, and its
/// declared return type.
pub struct GenM {
    pub tac: Seq<TacM>,
    pub temp: nat,
    pub label: nat,
    pub mem: nat,
    pub ret: Option<TokenType>,
}

pub open spec fn mk_tac(
    tac_type: Type,
    arguments: Seq<Seq<char>>,
    operator: Option<Operator>,
    result: Option<Seq<char>>,
    value_type: Option<TokenType>,
    is_ptr: bool,
) -> TacM {
    TacM { tac_type, arguments, operator, result, value_type, is_ptr }
}

pub open spec fn emit(g: GenM, t: TacM) -> GenM {
    GenM { tac: g.tac.push(t), ..g }
}

/// The name of temporary number `n`: `_tN`.
pub open spec fn temp_name(n: nat) -> Seq<char> {
    seq!['_', 't'] + decimal(n)
}

/// The name of label number `n`: `LN`.
pub open spec fn label_name(n: nat) -> Seq<char> {
    seq!['L'] + decimal(n)
}

/// A fresh temporary `_tN`; none once the counter would overflow.
pub open spec fn fresh_temp(g: GenM) -> Option<(GenM, Seq<char>)> {
    if g.temp + 1 > usize::MAX {
        None
    } else {
        Some((GenM { temp: g.temp + 1, ..g }, temp_name(g.temp)))
    }
}

/// A fresh label `LN`; none once the counter would overflow.
pub open spec fn fresh_label(g: GenM) -> Option<(GenM, Seq<char>)> {
    if g.label + 1 > usize::MAX {
        None
    } else {
        Some((GenM { label: g.label + 1, ..g }, label_name(g.label)))
    }
}

/// Temporaries and labels never clash: temporaries drawn at different counts
/// have different names, so do labels, and no temporary is named like a label
/// or like a symbolic assignment target.
pub proof fn lemma_fresh_names_distinct(i: nat, j: nat)
    ensures
        temp_name(i) != label_name(j),
        i != j ==> temp_name(i) != temp_name(j),
        i != j ==> label_name(i) != label_name(j),
        forall|target: usize, scope: Scope| temp_name(i) != #[trigger] symbol_ref(target, scope),
{
    assert(temp_name(i)[0] == '_');
    assert(label_name(j)[0] == 'L');
    if i != j {
        lemma_decimal_injective(i, j);
        if temp_name(i) == temp_name(j) {
            assert(temp_name(i).skip(2) =~= decimal(i));
            assert(temp_name(j).skip(2) =~= decimal(j));
        }
        if label_name(i) == label_name(j) {
            assert(label_name(i).skip(1) =~= decimal(i));
            assert(label_name(j).skip(1) =~= decimal(j));
        }
    }
    assert forall|target: usize, scope: Scope| temp_name(i) != #[trigger] symbol_ref(target, scope) by {
        assert(symbol_ref(target, scope)[0] != '_');
    }
}

pub open spec fn scope_text(s: Scope) -> Seq<char> {
    match s {
        Scope::Root => seq!['R', 'o', 'o', 't'],
        Scope::Function => seq!['F', 'u', 'n', 'c', 't', 'i', 'o', 'n'],
        Scope::Parameter => seq!['P', 'a', 'r', 'a', 'm', 'e', 't', 'e', 'r'],
        Scope::EnbedFunc => seq!['E', 'n', 'b', 'e', 'd', 'F', 'u', 'n', 'c'],
    }
}

/// The symbolic name `Scope#index` of an assignment target.
pub open spec fn symbol_ref(target: usize, scope: Scope) -> Seq<char> {
    scope_text(scope) + seq!['#'] + decimal(target as nat)
}

/// The name an entry contributes as an operand.
pub open spec fn operand_of(e: TableM) -> Seq<char> {
    match e {
        TableM::Variable(v) => match v.name {
            Some(n) => n,
            None => match v.value {
                Some(vs) => if vs.len() > 0 && vs[0] is Var {
                    vs[0]->Var_0
                } else {
                    seq![]
                },
                None => seq![],
            },
        },
        TableM::Reasingment(r) => r.name,
        _ => seq![],
    }
}

/// The operand text of a call argument, with `&` or `*` for pointer arguments.
pub open spec fn call_arg_text(e: TableM) -> Seq<char> {
    match e {
        TableM::Reasingment(r) => match r.ptr {
            Some(PointerType::Reference) => seq!['&'] + r.name,
            Some(PointerType::Pointer) => seq!['*'] + r.name,
            None => r.name,
        },
        _ => operand_of(e),
    }
}

/// The operand an entry of an expression stands for.
pub open spec fn table_value(e: TableM) -> ValueM {
    match e {
        TableM::FunctionCall(c) => ValueM::FuncCall(c),
        TableM::Reasingment(r) if r.ptr == Some(PointerType::Pointer) => ValueM::Deref(r.name),
        TableM::Reasingment(r) if r.ptr == Some(PointerType::Reference) => ValueM::Ref(r.name),
        TableM::Variable(v) => if v.value is Some && v.value->0.len() > 0 {
            v.value->0[0]
        } else {
            match v.name {
                Some(n) => match array_split(n) {
                    Some((a, i)) => ValueM::Index(a, i),
                    None => ValueM::Var(n),
                },
                None => ValueM::Var(seq![]),
            }
        },
        _ => match array_split(operand_of(e)) {
            Some((a, i)) => ValueM::Index(a, i),
            None => ValueM::Var(operand_of(e)),
        },
    }
}

/// Binding strength of an operator; higher binds tighter.
pub open spec fn precedence(op: Operator) -> nat {
    match op {
        Operator::LogicalOr => 1,
        Operator::LogicalAnd => 2,
        Operator::Or => 3,
        Operator::And => 4,
        Operator::LogicalEquals | Operator::NotEquals | Operator::GreaterThan | Operator::LessThan
        | Operator::GreaterThanEquals | Operator::LessThanEquals => 5,
        Operator::LeftBitShift | Operator::RightBitShift => 6,
        Operator::Plus | Operator::Minus => 7,
        Operator::Multiplication | Operator::Division => 8,
        _ => 0,
    }
}

pub open spec fn opt_seq<A>(o: Option<Seq<A>>) -> Seq<A> {
    match o {
        Some(s) => s,
        None => Seq::empty(),
    }
}

/// The instructions for an operand: a name stays a name; a call, a
/// dereference, an address or an element goes to a fresh temporary.
/// The result is the new state, the operand's name, and whether it is a pointer.
pub open spec fn eval(g: GenM, v: ValueM, vt: Option<TokenType>) -> Option<(GenM, Seq<char>, bool)> {
    match v {
        ValueM::Var(s) => Some((g, s, false)),
        ValueM::FuncCall(fc) => match fresh_temp(g) {
            None => None,
            Some((g1, tmp)) => match gen_call(g1, fc) {
                None => None,
                Some(g2) => Some((emit(g2, mk_tac(Type::GetReturn, seq![], None, Some(tmp), vt, false)), tmp, false)),
            },
        },
        ValueM::Deref(n) => match fresh_temp(g) {
            None => None,
            Some((g1, tmp)) => Some((emit(g1, mk_tac(Type::Deref, seq![n], None, Some(tmp), vt, true)), tmp, true)),
        },
        ValueM::Ref(n) => match fresh_temp(g) {
            None => None,
            Some((g1, tmp)) => Some((emit(g1, mk_tac(Type::AddressOf, seq![n], None, Some(tmp), vt, true)), tmp, true)),
        },
        ValueM::Index(a, i) => match fresh_temp(g) {
            None => None,
            Some((g1, tmp)) => Some((emit(g1, mk_tac(Type::ArrayIndex, seq![a, i], None, Some(tmp), vt, false)), tmp, false)),
        },
    }
}

/// The arguments of a call, after the name: pointer arguments as written,
/// array elements through a fresh temporary, others by their operand name.
pub open spec fn call_args(g: GenM, ps: Seq<TableM>, args: Seq<Seq<char>>) -> Option<(GenM, Seq<Seq<char>>)>
    decreases ps.len(),
{
    if ps.len() == 0 {
        Some((g, args))
    } else {
        let p = ps[0];
        if p is Reasingment && p->Reasingment_0.ptr is Some {
            call_args(g, ps.drop_first(), args.push(call_arg_text(p)))
        } else {
            match table_value(p) {
                ValueM::Index(a, i) => match fresh_temp(g) {
                    None => None,
                    Some((g1, tmp)) => call_args(
                        emit(g1, mk_tac(Type::ArrayIndex, seq![a, i], None, Some(tmp), None, false)),
                        ps.drop_first(),
                        args.push(tmp),
                    ),
                },
                _ => call_args(g, ps.drop_first(), args.push(call_arg_text(p))),
            }
        }
    }
}

/// A call instruction, preceded by what its arguments need.
pub open spec fn gen_call(g: GenM, c: CallM) -> Option<GenM> {
    match call_args(g, opt_seq(c.parameters), seq![c.name]) {
        None => None,
        Some((g1, args)) => Some(emit(g1, mk_tac(Type::Call, args, None, None, None, false))),
    }
}

/// Precedence climbing from `pos`: one operand, then the operators that bind
/// at least `min_prec`. The result is the state, the position after the
/// expression, and the name holding its value.
pub open spec fn parse_expr(
    g: GenM,
    tokens: Seq<ValueM>,
    pos: nat,
    min_prec: nat,
    tt: Type,
    target: Seq<char>,
    is_top: bool,
    vt: Option<TokenType>,
) -> Option<(GenM, nat, Seq<char>)>
    decreases tokens.len() - pos, 1nat,
{
    if pos >= tokens.len() {
        None
    } else {
        match eval(g, tokens[pos as int], vt) {
            None => None,
            Some((g1, left, _)) => parse_loop(g1, tokens, pos + 1, left, min_prec, tt, target, is_top, vt),
        }
    }
}

/// Whether the word at `pos` is an operator binding at least `min_prec`.
pub open spec fn continues_at(tokens: Seq<ValueM>, pos: nat, min_prec: nat) -> bool {
    pos < tokens.len() && tokens[pos as int] is Var && precedence(op_of(tokens[pos as int]->Var_0)) >= min_prec
}

pub open spec fn parse_loop(
    g: GenM,
    tokens: Seq<ValueM>,
    pos: nat,
    left: Seq<char>,
    min_prec: nat,
    tt: Type,
    target: Seq<char>,
    is_top: bool,
    vt: Option<TokenType>,
) -> Option<(GenM, nat, Seq<char>)>
    decreases tokens.len() - pos, 0nat,
{
    if pos >= tokens.len() || !(tokens[pos as int] is Var) {
        Some((g, pos, left))
    } else {
        let op = op_of(tokens[pos as int]->Var_0);
        let prec = precedence(op);
        if prec < min_prec {
            Some((g, pos, left))
        } else {
            match parse_expr(g, tokens, pos + 1, prec + 1, tt, target, false, vt) {
                None => None,
                Some((g2, pos2, right)) => if pos2 <= pos || pos2 > tokens.len() {
                    None
                } else {
                    let named = if is_top && !continues_at(tokens, pos2, min_prec) {
                        Some((g2, target))
                    } else {
                        fresh_temp(g2)
                    };
                    match named {
                        None => None,
                        Some((g3, name)) => parse_loop(
                            emit(g3, mk_tac(tt, seq![left, right], Some(op), Some(name), vt, false)),
                            tokens,
                            pos2,
                            name,
                            min_prec,
                            tt,
                            target,
                            is_top,
                            vt,
                        ),
                    }
                }
            }
        }
    }
}

/// The instructions that compute `tokens` into `target`.
pub open spec fn build_chain(g: GenM, tokens: Seq<ValueM>, target: Seq<char>, tt: Type, vt: Option<TokenType>) -> Option<GenM> {
    if tokens.len() == 0 {
        Some(g)
    } else if tokens.len() == 1 {
        match tokens[0] {
            ValueM::Deref(n) => Some(emit(g, mk_tac(Type::Deref, seq![n], None, Some(target), vt, true))),
            ValueM::Ref(n) => Some(emit(g, mk_tac(Type::AddressOf, seq![n], None, Some(target), vt, true))),
            other => match eval(g, other, vt) {
                None => None,
                Some((g1, operand, is_ptr)) => Some(emit(g1, mk_tac(tt, seq![operand], None, Some(target), vt, is_ptr))),
            },
        }
    } else {
        match parse_expr(g, tokens, 0, 0, tt, target, true, vt) {
            None => None,
            Some((g1, _, _)) => Some(g1),
        }
    }
}

/// The element assignments of an array initializer, from index `idx` on.
pub open spec fn array_assigns(g: GenM, vals: Seq<ValueM>, idx: nat, name: Seq<char>, vt: Option<TokenType>) -> Option<GenM>
    decreases vals.len() - idx,
{
    if idx >= vals.len() {
        Some(g)
    } else {
        match eval(g, vals[idx as int], vt) {
            None => None,
            Some((g1, val, _)) => array_assigns(
                emit(g1, mk_tac(Type::ArrayAssign, seq![decimal(idx), val], None, Some(name), vt, false)),
                vals,
                idx + 1,
                name,
                vt,
            ),
        }
    }
}

/// A variable declaration: an array with its elements, or a value computed
/// into the variable (a condition's `_` gets a fresh temporary); each
/// declaration reserves 16 bytes per temporary it used, plus 16.
pub open spec fn gen_var(g: GenM, v: VarM) -> Option<GenM> {
    let last_temp = g.temp;
    let named = if v.name == Some(seq!['_']) {
        fresh_temp(g)
    } else {
        Some((g, opt_seq(v.name)))
    };
    match named {
        None => None,
        Some((g1, name)) => {
            let vt = Some(v.token_type);
            if v.is_array {
                let size: nat = match v.array_size {
                    Some(n) => n as nat,
                    None => 1,
                };
                let g2 = emit(g1, mk_tac(Type::ArrayDecl, seq![decimal(size)], None, Some(name), vt, false));
                if size * 16 > usize::MAX || g2.mem + size * 16 > usize::MAX {
                    None
                } else {
                    array_assigns(GenM { mem: g2.mem + size * 16, ..g2 }, opt_seq(v.value), 0, name, vt)
                }
            } else {
                match build_chain(g1, opt_seq(v.value), name, Type::Variable, vt) {
                    None => None,
                    Some(g2) => if g2.temp < last_temp {
                        None
                    } else {
                        let used: int = g2.temp - last_temp + 1;
                        if used > usize::MAX || used * 16 > usize::MAX || g2.mem + used * 16 > usize::MAX {
                            None
                        } else {
                            Some(GenM { mem: (g2.mem + used * 16) as nat, ..g2 })
                        }
                    },
                }
            }
        },
    }
}

/// The parameter declarations of a function.
pub open spec fn emit_params(g: GenM, ps: Seq<TableM>) -> GenM
    decreases ps.len(),
{
    if ps.len() == 0 {
        g
    } else {
        let p = ps[0];
        let t = match p {
            TableM::Variable(v) => mk_tac(Type::Param, seq![opt_seq(v.name)], None, None, Some(v.token_type), v.ptr is Some),
            _ => mk_tac(Type::Param, seq![operand_of(p)], None, None, None, false),
        };
        emit_params(emit(g, t), ps.drop_first())
    }
}

/// The operands of an assignment, with `+=`, `-=`, `++` and `--` written out
/// as an addition or subtraction on the target.
pub open spec fn desugar(raw: Seq<ValueM>, left: ValueM) -> Seq<ValueM> {
    if raw.len() > 0 && raw[0] is Var {
        let op = raw[0]->Var_0;
        if op == seq!['+', '='] {
            seq![left, ValueM::Var(seq!['+'])] + raw.skip(1)
        } else if op == seq!['-', '='] {
            seq![left, ValueM::Var(seq!['-'])] + raw.skip(1)
        } else if op == seq!['+', '+'] {
            seq![left, ValueM::Var(seq!['+']), ValueM::Var(seq!['1'])]
        } else if op == seq!['-', '-'] {
            seq![left, ValueM::Var(seq!['-']), ValueM::Var(seq!['1'])]
        } else {
            raw
        }
    } else {
        raw
    }
}

pub open spec fn values_of(ps: Seq<TableM>) -> Seq<ValueM> {
    Seq::new(ps.len(), |i: int| table_value(ps[i]))
}

/// An assignment: to an array element, through a pointer, or to a name.
pub open spec fn gen_reas(g: GenM, r: ReasM) -> Option<GenM> {
    let target_ref = symbol_ref(r.target, r.target_scope);
    let vt = Some(r.token_type);
    let left = match r.array_index {
        Some(i) => ValueM::Index(r.name, i),
        None => ValueM::Var(r.name),
    };
    let tokens = desugar(values_of(opt_seq(r.parameters)), left);
    if r.array_index is Some {
        let ai = r.array_index->0;
        let rhs = if tokens.len() == 1 {
            match eval(g, tokens[0], vt) {
                None => None,
                Some((g1, val, _)) => Some((g1, val)),
            }
        } else {
            match fresh_temp(g) {
                None => None,
                Some((g1, tmp)) => match build_chain(g1, tokens, tmp, Type::Variable, vt) {
                    None => None,
                    Some(g2) => Some((g2, tmp)),
                },
            }
        };
        match rhs {
            None => None,
            Some((g3, val)) => Some(emit(g3, mk_tac(Type::ArrayAssign, seq![ai, val], None, Some(r.name), vt, false))),
        }
    } else if r.ptr == Some(PointerType::Pointer) {
        let rhs = if tokens.len() == 1 {
            match tokens[0] {
                ValueM::Var(s) => Some((g, s)),
                ValueM::FuncCall(f) => match fresh_temp(g) {
                    None => None,
                    Some((g1, tmp)) => match gen_call(g1, f) {
                        None => None,
                        Some(g2) => Some((emit(g2, mk_tac(Type::GetReturn, seq![], None, Some(tmp), vt, false)), tmp)),
                    },
                },
                _ => match fresh_temp(g) {
                    None => None,
                    Some((g1, tmp)) => match build_chain(g1, tokens, tmp, Type::Variable, vt) {
                        None => None,
                        Some(g2) => Some((g2, tmp)),
                    },
                },
            }
        } else {
            match fresh_temp(g) {
                None => None,
                Some((g1, tmp)) => match build_chain(g1, tokens, tmp, Type::Variable, vt) {
                    None => None,
                    Some(g2) => Some((g2, tmp)),
                },
            }
        };
        match rhs {
            None => None,
            Some((g3, val)) => Some(emit(g3, mk_tac(Type::DerefAssign, seq![r.name, val], None, Some(r.name), vt, false))),
        }
    } else {
        match build_chain(g, tokens, target_ref, Type::Reasingment, vt) {
            None => None,
            Some(g1) => if g1.tac.len() == 0 {
                None
            } else {
                Some(GenM { tac: g1.tac.update(g1.tac.len() - 1, TacM { result: Some(r.name), ..g1.tac.last() }), ..g1 })
            },
        }
    }
}

/// A return: a bare `Return`, or the value computed into a fresh temporary
/// by `Return` instructions.
pub open spec fn gen_ret(g: GenM, r: RetM) -> Option<GenM> {
    let vt = match g.ret {
        Some(t) => Some(t),
        None => match r.value {
            Some(v) => Some(v.token_type),
            None => None,
        },
    };
    let tokens = match r.value {
        Some(v) => opt_seq(v.value),
        None => seq![],
    };
    if tokens.len() == 0 {
        Some(emit(g, mk_tac(Type::Return, seq![], None, None, g.ret, false)))
    } else {
        match fresh_temp(g) {
            None => None,
            Some((g1, target)) => build_chain(g1, tokens, target, Type::Return, vt),
        }
    }
}

/// The condition instruction gets the name that holds the condition's value:
/// the result of the last instruction so far, or `0`.
pub open spec fn attach(g: GenM, t: TacM) -> TacM {
    if g.tac.len() > 0 {
        TacM {
            arguments: t.arguments.push(
                match g.tac.last().result {
                    Some(r) => r,
                    None => seq!['0'],
                },
            ),
            ..t
        }
    } else {
        t
    }
}

/// Code for every entry of a table, in order.
pub open spec fn generate(g: GenM, entries: Seq<TableM>) -> Option<GenM>
    decreases entries, 0nat,
{
    if entries.len() == 0 {
        Some(g)
    } else {
        match gen_entry(g, entries[0]) {
            None => None,
            Some(g1) => generate(g1, entries.drop_first()),
        }
    }
}

pub open spec fn gen_entry(g: GenM, e: TableM) -> Option<GenM>
    decreases e, 2nat,
{
    match e {
        TableM::Variable(v) => gen_var(g, v),
        TableM::Function(f) => gen_func(g, f),
        TableM::FunctionCall(c) => gen_call(g, c),
        TableM::Reasingment(r) => gen_reas(g, r),
        TableM::Conditional(c) => gen_block(g, Type::Conditional, Type::ConditionalEnd, c.condition, c.table),
        TableM::Loop(l) => gen_block(g, Type::Loop, Type::LoopEnd, l.condition, l.table),
        TableM::Return(r) => gen_ret(g, r),
        _ => Some(g),
    }
}

/// A function: its header (later given the stack size), its parameters,
/// and its body; the stack size starts at 16 bytes per parameter.
pub open spec fn gen_func(g: GenM, f: FuncM) -> Option<GenM>
    decreases f, 0nat,
{
    let g1 = GenM { mem: 0, ret: f.return_type, ..g };
    let g2 = emit(g1, mk_tac(Type::Function, seq![opt_seq(f.name)], None, None, None, false));
    let idx = g2.tac.len() - 1;
    let params = opt_seq(f.parameters);
    if params.len() * 16 > usize::MAX {
        None
    } else {
        let g3 = GenM { mem: params.len() * 16, ..emit_params(g2, params) };
        match generate(g3, f.table) {
            None => None,
            Some(g4) => if g4.tac.len() <= idx {
                None
            } else {
                Some(
                GenM {
                    tac: g4.tac.update(
                        idx,
                        TacM { arguments: g4.tac[idx].arguments.push(decimal(g4.mem)), ..g4.tac[idx] },
                    ),
                    ..g4
                },
                )
            },
        }
    }
}

/// A conditional or loop: a label (and a loop's `_loop` label), the
/// condition's code, the branch instruction, the body, and the end marker.
pub open spec fn gen_block(g: GenM, start: Type, end: Type, cond: Seq<TableM>, table: Seq<TableM>) -> Option<GenM>
    decreases table, 1nat,
{
    match fresh_label(g) {
        None => None,
        Some((g1, label)) => {
            let g2 = if start == Type::Loop {
                emit(g1, mk_tac(Type::Label, seq![label + seq!['_', 'l', 'o', 'o', 'p']], None, None, None, false))
            } else {
                g1
            };
            let t = mk_tac(start, seq![label], None, None, None, false);
            let with_cond = if cond.len() > 0 && cond[0] is Variable {
                match gen_var(g2, cond[0]->Variable_0) {
                    None => None,
                    Some(g3) => Some((g3, attach(g3, t))),
                }
            } else if cond.len() > 0 && cond[0] is Reasingment {
                match gen_reas(g2, cond[0]->Reasingment_0) {
                    None => None,
                    Some(g3) => Some((g3, attach(g3, t))),
                }
            } else {
                Some((g2, t))
            };
            match with_cond {
                None => None,
                Some((g3, t2)) => match generate(emit(g3, t2), table) {
                    None => None,
                    Some(g5) => Some(emit(g5, mk_tac(end, seq![label], None, None, None, false))),
                },
            }
        },
    }
}

/// The three-address code of a whole program, when generating it neither
/// overflows a counter nor hits a case that has no code.
pub open spec fn tac_of(entries: Seq<TableM>) -> Option<Seq<TacM>> {
    match generate(GenM { tac: seq![], temp: 0, label: 0, mem: 0, ret: None }, entries) {
        Some(g) => Some(g.tac),
        None => None,
    }
}


// ---------------------------------------------------------------------------
// The generator.

/// Lowers a symbol table to three-address code.
pub struct ThreeAddressCodeGenerator {
    tac_table: Vec<Tac>,
    temp_count: usize,
    label_count: usize,
    memory_alloc: usize,
    current_return_type: Option<TokenType>,
}

impl View for ThreeAddressCodeGenerator {
    type V = GenM;

    closed spec fn view(&self) -> GenM {
        GenM {
            tac: tacs_view(self.tac_table@),
            temp: self.temp_count as nat,
            label: self.label_count as nat,
            mem: self.memory_alloc as nat,
            ret: opt_canon(self.current_return_type),
        }
    }
}

/// The state a fresh generator starts in.
pub open spec fn gen_start() -> GenM {
    GenM { tac: seq![], temp: 0, label: 0, mem: 0, ret: None }
}

fn copy_opt_token(o: &Option<TokenType>) -> (r: Option<TokenType>)
    ensures
        r == *o,
{
    match o {
        Some(t) => Some(t.copy()),
        None => None,
    }
}

fn strings1(a: String) -> (r: Vec<String>)
    ensures
        strings_view(r@) == seq![a@],
{
    let mut v: Vec<String> = Vec::new();
    v.push(a);
    assert(strings_view(v@) =~= seq![a@]);
    v
}

fn strings2(a: String, b: String) -> (r: Vec<String>)
    ensures
        strings_view(r@) == seq![a@, b@],
{
    let mut v: Vec<String> = Vec::new();
    v.push(a);
    v.push(b);
    assert(strings_view(v@) =~= seq![a@, b@]);
    v
}

fn push_string(v: &mut Vec<String>, a: String)
    ensures
        strings_view(final(v)@) == strings_view(old(v)@).push(a@),
{
    let ghost before = v@;
    v.push(a);
    assert(strings_view(v@) =~= strings_view(before).push(a@));
}

fn mk(
    tac_type: Type,
    arguments: Vec<String>,
    operator: Option<Operator>,
    result: Option<String>,
    value_type: Option<TokenType>,
    is_ptr: bool,
) -> (r: Tac)
    ensures
        r@ == mk_tac(tac_type, strings_view(arguments@), operator, opt_str_view(result), opt_canon(value_type), is_ptr),
{
    Tac { tac_type, arguments, operator, result, value_type, is_ptr }
}

/// The name an entry contributes as an operand.
fn extract_operand(entry: &TableTypes) -> (r: String)
    ensures
        r@ == operand_of(entry@),
{
    match entry {
        TableTypes::Variable(var) => {
            if let Some(name) = &var.name {
                return name.clone();
            }
            if let Some(values) = &var.value {
                if values.len() > 0 {
                    proof {
                        assert(values_view(values@)[0] == value_view(values@[0]));
                    }
                    if let Value::Var(v) = &values[0] {
                        return v.clone();
                    }
                }
            }
            String::new()
        },
        TableTypes::Reasingment(r) => r.name.clone(),
        _ => String::new(),
    }
}

/// The operand text of a call argument.
fn extract_call_arg(entry: &TableTypes) -> (r: String)
    ensures
        r@ == call_arg_text(entry@),
{
    match entry {
        TableTypes::Reasingment(r) => {
            let mut v: Vec<char> = Vec::new();
            match r.ptr {
                Some(PointerType::Reference) => v.push('&'),
                Some(PointerType::Pointer) => v.push('*'),
                None => {},
            }
            let n = chars_of(r.name.as_str());
            push_all(&mut v, n.as_slice());
            assert(v@ =~= call_arg_text(entry@));
            string_from(v.as_slice())
        },
        _ => extract_operand(entry),
    }
}

/// The operand of an element or plain name.
fn name_value(n: String) -> (r: Value)
    ensures
        r@ == match array_split(n@) {
            Some((a, i)) => ValueM::Index(a, i),
            None => ValueM::Var(n@),
        },
{
    let c = chars_of(n.as_str());
    match array_split_chars(c.as_slice()) {
        Some((a, i)) => Value::Index(string_from(a.as_slice()), string_from(i.as_slice())),
        None => Value::Var(n),
    }
}

/// The operand an entry of an expression stands for.
fn table_type_to_value(e: &TableTypes) -> (r: Value)
    ensures
        r@ == table_value(e@),
{
    match e {
        TableTypes::FunctionCall(call) => Value::FuncCall(call.copy()),
        TableTypes::Reasingment(r) if r.ptr == Some(PointerType::Pointer) => Value::Deref(r.name.clone()),
        TableTypes::Reasingment(r) if r.ptr == Some(PointerType::Reference) => Value::Ref(r.name.clone()),
        TableTypes::Variable(v) => {
            if let Some(vals) = &v.value {
                if vals.len() > 0 {
                    proof {
                        assert(values_view(vals@)[0] == value_view(vals@[0]));
                    }
                    return vals[0].copy();
                }
            }
            match &v.name {
                Some(name) => name_value(name.clone()),
                None => Value::Var(String::new()),
            }
        },
        _ => name_value(extract_operand(e)),
    }
}

/// Binding strength of an operator.
fn precedence_of(op: &Operator) -> (r: u8)
    ensures
        r as nat == precedence(*op),
        r <= 8,
{
    match op {
        Operator::LogicalOr => 1,
        Operator::LogicalAnd => 2,
        Operator::Or => 3,
        Operator::And => 4,
        Operator::LogicalEquals | Operator::NotEquals | Operator::GreaterThan | Operator::LessThan
        | Operator::GreaterThanEquals | Operator::LessThanEquals => 5,
        Operator::LeftBitShift | Operator::RightBitShift => 6,
        Operator::Plus | Operator::Minus => 7,
        Operator::Multiplication | Operator::Division => 8,
        _ => 0,
    }
}

fn scope_name(s: Scope) -> (r: Vec<char>)
    ensures
        r@ == scope_text(s),
{
    let mut v: Vec<char> = Vec::new();
    match s {
        Scope::Root => push_all(&mut v, &['R', 'o', 'o', 't']),
        Scope::Function => push_all(&mut v, &['F', 'u', 'n', 'c', 't', 'i', 'o', 'n']),
        Scope::Parameter => push_all(&mut v, &['P', 'a', 'r', 'a', 'm', 'e', 't', 'e', 'r']),
        Scope::EnbedFunc => push_all(&mut v, &['E', 'n', 'b', 'e', 'd', 'F', 'u', 'n', 'c']),
    }
    assert(v@ =~= scope_text(s));
    v
}

/// The symbolic name `Scope#index` of an assignment target.
fn symbol_ref_of(target: usize, scope: Scope) -> (r: String)
    ensures
        r@ == symbol_ref(target, scope),
{
    let mut v = scope_name(scope);
    v.push('#');
    push_decimal(&mut v, target as u64);
    assert(v@ =~= symbol_ref(target, scope));
    string_from(v.as_slice())
}

pub proof fn lemma_tacs_push(s: Seq<Tac>, t: Tac)
    ensures
        tacs_view(s.push(t)) == tacs_view(s).push(t@),
{
    assert(tacs_view(s.push(t)) =~= tacs_view(s).push(t@));
}

impl ThreeAddressCodeGenerator {
    /// A generator with no instructions and all counters at zero.
    pub fn new() -> (r: Self)
        ensures
            r@ == gen_start(),
    {
        let r = Self {
            tac_table: Vec::new(),
            temp_count: 0,
            label_count: 0,
            memory_alloc: 0,
            current_return_type: None,
        };
        assert(tacs_view(r.tac_table@) =~= seq![]);
        r
    }

    /// The instructions generated so far.
    pub fn into_table(self) -> (r: Vec<Tac>)
        ensures
            tacs_view(r@) == self@.tac,
    {
        self.tac_table
    }

    fn push_tac(&mut self, t: Tac)
        ensures
            final(self)@ == emit(old(self)@, t@),
    {
        let ghost before = self.tac_table@;
        self.tac_table.push(t);
        proof {
            lemma_tacs_push(before, t);
        }
    }

    fn next_temp(&mut self) -> (r: Option<String>)
        ensures
            match fresh_temp(old(self)@) {
                None => r is None,
                Some((g, t)) => r is Some && r->0@ == t && final(self)@ == g,
            },
    {
        if self.temp_count == usize::MAX {
            return None;
        }
        let mut v: Vec<char> = Vec::new();
        v.push('_');
        v.push('t');
        push_decimal(&mut v, self.temp_count as u64);
        assert(v@ =~= seq!['_', 't'] + decimal(self.temp_count as nat));
        self.temp_count = self.temp_count + 1;
        Some(string_from(v.as_slice()))
    }

    fn next_label(&mut self) -> (r: Option<String>)
        ensures
            match fresh_label(old(self)@) {
                None => r is None,
                Some((g, t)) => r is Some && r->0@ == t && final(self)@ == g,
            },
    {
        if self.label_count == usize::MAX {
            return None;
        }
        let mut v: Vec<char> = Vec::new();
        v.push('L');
        push_decimal(&mut v, self.label_count as u64);
        assert(v@ =~= seq!['L'] + decimal(self.label_count as nat));
        self.label_count = self.label_count + 1;
        Some(string_from(v.as_slice()))
    }

    /// The instructions for one operand; the operand's name and whether it is a pointer.
    fn evaluate_value(&mut self, value: &Value, value_type: &Option<TokenType>) -> (r: Option<(String, bool)>)
        ensures
            match eval(old(self)@, value@, opt_canon(*value_type)) {
                None => r is None,
                Some((g, n, p)) => (r matches Some((s, b)) && s@ == n && b == p) && final(self)@ == g,
            },
    {
        match value {
            Value::Var(val) => Some((val.clone(), false)),
            Value::FuncCall(fncall) => {
                let tmp = match self.next_temp() {
                    Some(t) => t,
                    None => return None,
                };
                if !self.add_function_call(fncall) {
                    return None;
                }
                let no_args: Vec<String> = Vec::new();
                assert(strings_view(no_args@) =~= seq![]);
                self.push_tac(mk(Type::GetReturn, no_args, None, Some(tmp.clone()), copy_opt_token(value_type), false));
                Some((tmp, false))
            },
            Value::Deref(name) => {
                let tmp = match self.next_temp() {
                    Some(t) => t,
                    None => return None,
                };
                self.push_tac(mk(Type::Deref, strings1(name.clone()), None, Some(tmp.clone()), copy_opt_token(value_type), true));
                Some((tmp, true))
            },
            Value::Ref(name) => {
                let tmp = match self.next_temp() {
                    Some(t) => t,
                    None => return None,
                };
                self.push_tac(mk(Type::AddressOf, strings1(name.clone()), None, Some(tmp.clone()), copy_opt_token(value_type), true));
                Some((tmp, true))
            },
            Value::Index(array_name, index_expr) => {
                let tmp = match self.next_temp() {
                    Some(t) => t,
                    None => return None,
                };
                self.push_tac(
                    mk(Type::ArrayIndex, strings2(array_name.clone(), index_expr.clone()), None, Some(tmp.clone()), copy_opt_token(value_type), false),
                );
                Some((tmp, false))
            },
        }
    }

    /// A call instruction and what its arguments need.
    fn add_function_call(&mut self, call: &FunctionCall) -> (ok: bool)
        ensures
            ok == gen_call(old(self)@, call@) is Some,
            ok ==> final(self)@ == gen_call(old(self)@, call@)->0,
    {
        let mut args: Vec<String> = strings1(call.name.clone());
        let empty: Vec<TableTypes> = Vec::new();
        let params: &Vec<TableTypes> = match &call.parameters {
            Some(p) => p,
            None => &empty,
        };
        let ghost ps = tables_view(params@);
        proof {
            assert(ps =~= opt_seq(call@.parameters));
            assert(ps.skip(0) =~= ps);
        }
        let n = params.len();
        let mut i: usize = 0;
        while i < n
            invariant
                n == params@.len(),
                i <= n,
                ps == tables_view(params@),
                ps == opt_seq(call@.parameters),
                call_args(old(self)@, ps, seq![call@.name]) == call_args(self@, ps.skip(i as int), strings_view(args@)),
            decreases n - i,
        {
            let p = &params[i];
            proof {
                assert(ps.skip(i as int)[0] == table_view(*p));
                assert(ps.skip(i as int).drop_first() =~= ps.skip(i + 1));
            }
            let is_ptr_arg = match p {
                TableTypes::Reasingment(r) => r.ptr.is_some(),
                _ => false,
            };
            if is_ptr_arg {
                push_string(&mut args, extract_call_arg(p));
            } else {
                let val = table_type_to_value(p);
                match val {
                    Value::Index(arr_name, idx_str) => {
                        let ghost g0 = self@;
                        let tmp = match self.next_temp() {
                            Some(t) => t,
                            None => {
                                assert(call_args(g0, ps.skip(i as int), strings_view(args@)) is None);
                                return false;
                            },
                        };
                        self.push_tac(mk(Type::ArrayIndex, strings2(arr_name, idx_str), None, Some(tmp.clone()), None, false));
                        push_string(&mut args, tmp);
                    },
                    _ => {
                        push_string(&mut args, extract_call_arg(p));
                    },
                }
            }
            i = i + 1;
        }
        proof {
            assert(ps.skip(n as int) =~= Seq::<TableM>::empty());
        }
        self.push_tac(mk(Type::Call, args, None, None, None, false));
        true
    }

    /// Precedence climbing over `tokens` from `*pos`; the name that holds the
    /// expression's value.
    fn parse_expr(
        &mut self,
        tokens: &Vec<Value>,
        pos: &mut usize,
        min_prec: u8,
        tac_type: Type,
        target: &String,
        is_top: bool,
        value_type: &Option<TokenType>,
    ) -> (r: Option<String>)
        requires
            min_prec <= 9,
        ensures
            match parse_expr(old(self)@, values_view(tokens@), *old(pos) as nat, min_prec as nat, tac_type, target@, is_top, opt_canon(*value_type)) {
                None => r is None,
                Some((g, p, l)) => r is Some && r->0@ == l && final(self)@ == g && *final(pos) as nat == p,
            },
        decreases tokens@.len() - *old(pos), 1nat,
    {
        let ghost tv = values_view(tokens@);
        let ghost expected = parse_expr(old(self)@, tv, *old(pos) as nat, min_prec as nat, tac_type, target@, is_top, opt_canon(*value_type));
        if *pos >= tokens.len() {
            return None;
        }
        proof {
            assert(tv[*pos as int] == value_view(tokens@[*pos as int]));
        }
        let (mut left, _) = match self.evaluate_value(&tokens[*pos], value_type) {
            Some(x) => x,
            None => return None,
        };
        *pos = *pos + 1;
        loop
            invariant
                tv == values_view(tokens@),
                *pos <= tokens@.len(),
                *pos > *old(pos),
                min_prec <= 9,
                expected == parse_expr(old(self)@, tv, *old(pos) as nat, min_prec as nat, tac_type, target@, is_top, opt_canon(*value_type)),
                expected == parse_loop(self@, tv, *pos as nat, left@, min_prec as nat, tac_type, target@, is_top, opt_canon(*value_type)),
            ensures
                expected == Some((self@, *pos as nat, left@)),
            decreases tokens@.len() - *pos,
        {
            if *pos >= tokens.len() {
                break;
            }
            proof {
                assert(tv[*pos as int] == value_view(tokens@[*pos as int]));
            }
            let op = match &tokens[*pos] {
                Value::Var(s) => Operator::from_str(s.as_str()),
                _ => break,
            };
            let prec = precedence_of(&op);
            if prec < min_prec {
                break;
            }
            let before = *pos;
            let ghost g0 = self@;
            *pos = *pos + 1;
            let right = match self.parse_expr(tokens, pos, prec + 1, tac_type, target, false, value_type) {
                Some(r) => r,
                None => {
                    assert(expected is None);
                    return None;
                },
            };
            if *pos <= before || *pos > tokens.len() {
                return None;
            }
            let next_continues = if *pos < tokens.len() {
                proof {
                    assert(tv[*pos as int] == value_view(tokens@[*pos as int]));
                }
                match &tokens[*pos] {
                    Value::Var(s) => precedence_of(&Operator::from_str(s.as_str())) >= min_prec,
                    _ => false,
                }
            } else {
                false
            };
            proof {
                assert(next_continues == continues_at(tv, *pos as nat, min_prec as nat));
            }
            let ghost g2 = self@;
            let result_name = if is_top && !next_continues {
                target.clone()
            } else {
                match self.next_temp() {
                    Some(t) => t,
                    None => {
                        assert(fresh_temp(g2) is None);
                        assert(expected is None);
                        return None;
                    },
                }
            };
            self.push_tac(mk(tac_type, strings2(left, right), Some(op), Some(result_name.clone()), copy_opt_token(value_type), false));
            left = result_name;
        }
        Some(left)
    }

    /// The instructions that compute `tokens` into `target`.
    fn build_expression_chain(&mut self, tokens: &Vec<Value>, target: String, tac_type: Type, value_type: &Option<TokenType>) -> (ok: bool)
        ensures
            ok == build_chain(old(self)@, values_view(tokens@), target@, tac_type, opt_canon(*value_type)) is Some,
            ok ==> final(self)@ == build_chain(old(self)@, values_view(tokens@), target@, tac_type, opt_canon(*value_type))->0,
    {
        if tokens.len() == 0 {
            return true;
        }
        if tokens.len() == 1 {
            proof {
                assert(values_view(tokens@)[0] == value_view(tokens@[0]));
            }
            match &tokens[0] {
                Value::Deref(name) => {
                    self.push_tac(mk(Type::Deref, strings1(name.clone()), None, Some(target), copy_opt_token(value_type), true));
                },
                Value::Ref(name) => {
                    self.push_tac(mk(Type::AddressOf, strings1(name.clone()), None, Some(target), copy_opt_token(value_type), true));
                },
                other => {
                    let (operand, is_ptr) = match self.evaluate_value(other, value_type) {
                        Some(x) => x,
                        None => return false,
                    };
                    self.push_tac(mk(tac_type, strings1(operand), None, Some(target), copy_opt_token(value_type), is_ptr));
                },
            }
            return true;
        }
        let mut pos: usize = 0;
        match self.parse_expr(tokens, &mut pos, 0, tac_type, &target, true, value_type) {
            Some(_) => true,
            None => false,
        }
    }
}


pub proof fn lemma_tacs_update(s: Seq<Tac>, i: int, t: Tac)
    requires
        0 <= i < s.len(),
    ensures
        tacs_view(s.update(i, t)) == tacs_view(s).update(i, t@),
{
    assert(tacs_view(s.update(i, t)) =~= tacs_view(s).update(i, t@));
}

pub proof fn lemma_tacs_drop_last(s: Seq<Tac>)
    requires
        s.len() > 0,
    ensures
        tacs_view(s.drop_last()) == tacs_view(s).drop_last(),
        tacs_view(s).last() == s.last()@,
{
    assert(tacs_view(s.drop_last()) =~= tacs_view(s).drop_last());
}

/// The operands of an assignment with compound operators written out.
fn desugar_tokens(raw: Vec<Value>, left: Value) -> (r: Vec<Value>)
    ensures
        values_view(r@) == desugar(values_view(raw@), left@),
{
    let ghost rv = values_view(raw@);
    if raw.len() == 0 {
        return raw;
    }
    proof {
        assert(rv[0] == value_view(raw@[0]));
    }
    let op: Vec<char> = match &raw[0] {
        Value::Var(op) => chars_of(op.as_str()),
        _ => return raw,
    };
    let k_pe: &[char] = &['+', '='];
    let k_me: &[char] = &['-', '='];
    let k_pp: &[char] = &['+', '+'];
    let k_mm: &[char] = &['-', '-'];
    assert(k_pe@ == seq!['+', '=']);
    assert(k_me@ == seq!['-', '=']);
    assert(k_pp@ == seq!['+', '+']);
    assert(k_mm@ == seq!['-', '-']);
    let plus = chars_eq(op.as_slice(), k_pe);
    let minus = !plus && chars_eq(op.as_slice(), k_me);
    if plus || minus {
        let mut v: Vec<Value> = Vec::new();
        v.push(left);
        v.push(Value::Var(if plus { string_of_char('+') } else { string_of_char('-') }));
        let n = raw.len();
        let mut i: usize = 1;
        while i < n
            invariant
                n == raw@.len(),
                1 <= i <= n,
                rv == values_view(raw@),
                values_view(v@) == seq![left@, ValueM::Var(if plus { seq!['+'] } else { seq!['-'] })] + rv.subrange(1, i as int),
            decreases n - i,
        {
            let ghost before = v@;
            v.push(raw[i].copy());
            proof {
                crate::variable_types::lemma_values_push(before, v@.last());
                assert(rv.subrange(1, i + 1) =~= rv.subrange(1, i as int).push(rv[i as int]));
            }
            i = i + 1;
        }
        proof {
            assert(rv.subrange(1, n as int) =~= rv.skip(1));
            assert(values_view(v@) =~= desugar(rv, left@));
        }
        return v;
    }
    let inc = chars_eq(op.as_slice(), k_pp);
    let dec = !inc && chars_eq(op.as_slice(), k_mm);
    if inc || dec {
        let mut v: Vec<Value> = Vec::new();
        v.push(left);
        v.push(Value::Var(if inc { string_of_char('+') } else { string_of_char('-') }));
        v.push(Value::Var(string_of_char('1')));
        assert(values_view(v@) =~= desugar(rv, left@));
        return v;
    }
    raw
}

impl ThreeAddressCodeGenerator {
    /// A variable declaration.
    fn add_variable(&mut self, variable: &Variable) -> (ok: bool)
        ensures
            ok == gen_var(old(self)@, variable@) is Some,
            ok ==> final(self)@ == gen_var(old(self)@, variable@)->0,
    {
        let ghost g0 = self@;
        let last_temp = self.temp_count;
        let is_underscore = match &variable.name {
            Some(n) => {
                let c = chars_of(n.as_str());
                let r = c.len() == 1 && c[0] == '_';
                proof {
                    if r {
                        assert(n@ =~= seq!['_']);
                    }
                }
                r
            },
            None => false,
        };
        let name = if is_underscore {
            match self.next_temp() {
                Some(t) => t,
                None => return false,
            }
        } else {
            match &variable.name {
                Some(n) => n.clone(),
                None => String::new(),
            }
        };
        let ghost g1 = self@;
        let value_type = Some(variable.token_type.copy());
        let empty: Vec<Value> = Vec::new();
        let tokens: &Vec<Value> = match &variable.value {
            Some(t) => t,
            None => &empty,
        };
        proof {
            assert(values_view(tokens@) =~= opt_seq(variable@.value));
        }
        if variable.is_array {
            let size: usize = match variable.array_size {
                Some(n) => n,
                None => 1,
            };
            self.push_tac(mk(Type::ArrayDecl, strings1(crate::text::decimal_string(size as u64)), None, Some(name.clone()), copy_opt_token(&value_type), false));
            if size > usize::MAX / 16 || self.memory_alloc > usize::MAX - size * 16 {
                return false;
            }
            self.memory_alloc = self.memory_alloc + size * 16;
            let ghost ga = self@;
            let ghost tv = values_view(tokens@);
            let n = tokens.len();
            let mut idx: usize = 0;
            while idx < n
                invariant
                    n == tokens@.len(),
                    idx <= n,
                    tv == values_view(tokens@),
                    g0 == old(self)@,
                    gen_var(g0, variable@) == array_assigns(ga, tv, 0, name@, opt_canon(value_type)),
                    array_assigns(ga, tv, 0, name@, opt_canon(value_type)) == array_assigns(self@, tv, idx as nat, name@, opt_canon(value_type)),
                decreases n - idx,
            {
                proof {
                    assert(tv[idx as int] == value_view(tokens@[idx as int]));
                }
                let ghost gb = self@;
                let (val_str, _) = match self.evaluate_value(&tokens[idx], &value_type) {
                    Some(x) => x,
                    None => {
                        assert(array_assigns(gb, tv, idx as nat, name@, opt_canon(value_type)) is None);
                        return false;
                    },
                };
                self.push_tac(mk(Type::ArrayAssign, strings2(crate::text::decimal_string(idx as u64), val_str), None, Some(name.clone()), copy_opt_token(&value_type), false));
                idx = idx + 1;
            }
            return true;
        }
        if !self.build_expression_chain(tokens, name, Type::Variable, &value_type) {
            return false;
        }
        if self.temp_count < last_temp {
            return false;
        }
        let used = self.temp_count - last_temp;
        if used >= usize::MAX || used + 1 > usize::MAX / 16 || self.memory_alloc > usize::MAX - (used + 1) * 16 {
            return false;
        }
        self.memory_alloc = self.memory_alloc + (used + 1) * 16;
        true
    }

    /// The condition instruction gets the name holding the condition's value.
    fn attach_condition_info(&self, tac: &mut Tac)
        ensures
            final(tac)@ == attach(self@, old(tac)@),
    {
        let n = self.tac_table.len();
        if n > 0 {
            proof {
                assert(tacs_view(self.tac_table@).last() == self.tac_table@[n - 1]@);
            }
            let arg = match &self.tac_table[n - 1].result {
                Some(r) => r.clone(),
                None => string_of_char('0'),
            };
            push_string(&mut tac.arguments, arg);
        }
    }

    /// An assignment.
    fn add_reasingment(&mut self, reassignment: &Reasingment) -> (ok: bool)
        ensures
            ok == gen_reas(old(self)@, reassignment@) is Some,
            ok ==> final(self)@ == gen_reas(old(self)@, reassignment@)->0,
    {
        let ghost g0 = self@;
        let target_ref = symbol_ref_of(reassignment.target, reassignment.target_scope);
        let value_type = Some(reassignment.token_type.copy());
        let empty: Vec<TableTypes> = Vec::new();
        let params: &Vec<TableTypes> = match &reassignment.parameters {
            Some(p) => p,
            None => &empty,
        };
        let ghost ps = tables_view(params@);
        proof {
            assert(ps =~= opt_seq(reassignment@.parameters));
        }
        let mut raw: Vec<Value> = Vec::new();
        let n = params.len();
        let mut i: usize = 0;
        while i < n
            invariant
                n == params@.len(),
                i <= n,
                ps == tables_view(params@),
                values_view(raw@) == values_of(ps).take(i as int),
            decreases n - i,
        {
            let ghost before = raw@;
            raw.push(table_type_to_value(&params[i]));
            proof {
                crate::variable_types::lemma_values_push(before, raw@.last());
                assert(values_of(ps).take(i + 1) =~= values_of(ps).take(i as int).push(table_value(ps[i as int])));
            }
            i = i + 1;
        }
        proof {
            assert(values_of(ps).take(n as int) =~= values_of(ps));
        }
        let left_op = match &reassignment.array_index {
            Some(idx_str) => Value::Index(reassignment.name.clone(), idx_str.clone()),
            None => Value::Var(reassignment.name.clone()),
        };
        let tokens = desugar_tokens(raw, left_op);
        let ghost tv = values_view(tokens@);
        if let Some(array_idx) = &reassignment.array_index {
            let rhs_val = if tokens.len() == 1 {
                proof {
                    assert(tv[0] == value_view(tokens@[0]));
                }
                match self.evaluate_value(&tokens[0], &value_type) {
                    Some((v, _)) => v,
                    None => return false,
                }
            } else {
                let tmp = match self.next_temp() {
                    Some(t) => t,
                    None => return false,
                };
                if !self.build_expression_chain(&tokens, tmp.clone(), Type::Variable, &value_type) {
                    return false;
                }
                tmp
            };
            self.push_tac(mk(Type::ArrayAssign, strings2(array_idx.clone(), rhs_val), None, Some(reassignment.name.clone()), value_type, false));
            return true;
        }
        if reassignment.ptr == Some(PointerType::Pointer) {
            let rhs_val = if tokens.len() == 1 {
                proof {
                    assert(tv[0] == value_view(tokens@[0]));
                }
                match &tokens[0] {
                    Value::Var(s) => s.clone(),
                    Value::FuncCall(f) => {
                        let tmp = match self.next_temp() {
                            Some(t) => t,
                            None => return false,
                        };
                        if !self.add_function_call(f) {
                            return false;
                        }
                        let no_args: Vec<String> = Vec::new();
                        assert(strings_view(no_args@) =~= seq![]);
                        self.push_tac(mk(Type::GetReturn, no_args, None, Some(tmp.clone()), copy_opt_token(&value_type), false));
                        tmp
                    },
                    _ => {
                        let tmp = match self.next_temp() {
                            Some(t) => t,
                            None => return false,
                        };
                        if !self.build_expression_chain(&tokens, tmp.clone(), Type::Variable, &value_type) {
                            return false;
                        }
                        tmp
                    },
                }
            } else {
                let tmp = match self.next_temp() {
                    Some(t) => t,
                    None => return false,
                };
                if !self.build_expression_chain(&tokens, tmp.clone(), Type::Variable, &value_type) {
                    return false;
                }
                tmp
            };
            self.push_tac(mk(Type::DerefAssign, strings2(reassignment.name.clone(), rhs_val), None, Some(reassignment.name.clone()), value_type, false));
            return true;
        }
        if !self.build_expression_chain(&tokens, target_ref, Type::Reasingment, &value_type) {
            return false;
        }
        let ghost g1 = self@;
        let ghost before = self.tac_table@;
        match self.tac_table.pop() {
            Some(mut last) => {
                proof {
                    lemma_tacs_drop_last(before);
                }
                last.result = Some(reassignment.name.clone());
                self.tac_table.push(last);
                proof {
                    lemma_tacs_push(before.drop_last(), last);
                    assert(tacs_view(self.tac_table@) =~= g1.tac.update(g1.tac.len() - 1, TacM { result: Some(reassignment@.name), ..g1.tac.last() }));
                }
                true
            },
            None => {
                assert(tacs_view(before) =~= Seq::<TacM>::empty());
                false
            },
        }
    }

    /// A return statement.
    fn add_return(&mut self, ret_stmt: &Return) -> (ok: bool)
        ensures
            ok == gen_ret(old(self)@, ret_stmt@) is Some,
            ok ==> final(self)@ == gen_ret(old(self)@, ret_stmt@)->0,
    {
        let value_type = match &self.current_return_type {
            Some(t) => Some(t.copy()),
            None => match &ret_stmt.value {
                Some(v) => Some(v.token_type.copy()),
                None => None,
            },
        };
        let empty: Vec<Value> = Vec::new();
        let tokens: &Vec<Value> = match &ret_stmt.value {
            Some(v) => match &v.value {
                Some(t) => t,
                None => &empty,
            },
            None => &empty,
        };
        proof {
            assert(values_view(empty@) =~= Seq::<ValueM>::empty());
        }
        if tokens.len() == 0 {
            let no_args: Vec<String> = Vec::new();
            assert(strings_view(no_args@) =~= seq![]);
            let rt = copy_opt_token(&self.current_return_type);
            self.push_tac(mk(Type::Return, no_args, None, None, rt, false));
            return true;
        }
        let target = match self.next_temp() {
            Some(t) => t,
            None => return false,
        };
        self.build_expression_chain(tokens, target, Type::Return, &value_type)
    }
}


impl ThreeAddressCodeGenerator {
    /// Code for every entry of a table, in order; false where the lowering has
    /// no code for an entry or a counter would overflow.
    fn generate_table(&mut self, type_table: &Vec<TableTypes>) -> (ok: bool)
        ensures
            ok == generate(old(self)@, tables_view(type_table@)) is Some,
            ok ==> final(self)@ == generate(old(self)@, tables_view(type_table@))->0,
        decreases type_table, 0nat,
    {
        let ghost tv = tables_view(type_table@);
        let n = type_table.len();
        let mut i: usize = 0;
        proof {
            assert(tv.skip(0) =~= tv);
        }
        while i < n
            invariant
                n == type_table@.len(),
                i <= n,
                tv == tables_view(type_table@),
                generate(old(self)@, tv) == generate(self@, tv.skip(i as int)),
            decreases n - i,
        {
            proof {
                vstd::std_specs::vec::axiom_vec_index_decreases(*type_table, i as int);
                assert(tv.skip(i as int)[0] == table_view(type_table@[i as int]));
                assert(tv.skip(i as int).drop_first() =~= tv.skip(i + 1));
            }
            if !self.add_entry(&type_table[i]) {
                return false;
            }
            i = i + 1;
        }
        proof {
            assert(tv.skip(n as int) =~= Seq::<TableM>::empty());
        }
        true
    }

    /// Code for one entry.
    fn add_entry(&mut self, entry: &TableTypes) -> (ok: bool)
        ensures
            ok == gen_entry(old(self)@, entry@) is Some,
            ok ==> final(self)@ == gen_entry(old(self)@, entry@)->0,
        decreases entry, 2nat,
    {
        match entry {
            TableTypes::Variable(var) => self.add_variable(var),
            TableTypes::Function(func) => self.add_function(func),
            TableTypes::FunctionCall(call) => self.add_function_call(call),
            TableTypes::Reasingment(r) => self.add_reasingment(r),
            TableTypes::Conditional(cond) => self.add_conditional_block(Type::Conditional, Type::ConditionalEnd, &cond.condition, &cond.table),
            TableTypes::Loop(lp) => self.add_conditional_block(Type::Loop, Type::LoopEnd, &lp.condition, &lp.table),
            TableTypes::Return(r) => self.add_return(r),
            _ => true,
        }
    }

    /// A function: header, parameters, body, then the header gets the stack size.
    fn add_function(&mut self, function: &Function) -> (ok: bool)
        ensures
            ok == gen_func(old(self)@, function@) is Some,
            ok ==> final(self)@ == gen_func(old(self)@, function@)->0,
        decreases function, 0nat,
    {
        let ghost g0 = self@;
        self.memory_alloc = 0;
        self.current_return_type = copy_opt_token(&function.return_type);
        let fname = match &function.name {
            Some(n) => n.clone(),
            None => String::new(),
        };
        self.push_tac(mk(Type::Function, strings1(fname), None, None, None, false));
        let idx = self.tac_table.len() - 1;
        let ghost g2 = self@;
        let empty: Vec<TableTypes> = Vec::new();
        let params: &Vec<TableTypes> = match &function.parameters {
            Some(p) => p,
            None => &empty,
        };
        let ghost ps = tables_view(params@);
        proof {
            assert(ps =~= opt_seq(function@.parameters));
            assert(ps.skip(0) =~= ps);
        }
        let n = params.len();
        if n > usize::MAX / 16 {
            return false;
        }
        let mut i: usize = 0;
        while i < n
            invariant
                n == params@.len(),
                i <= n,
                ps == tables_view(params@),
                emit_params(g2, ps) == emit_params(self@, ps.skip(i as int)),
            decreases n - i,
        {
            let p = &params[i];
            proof {
                assert(ps.skip(i as int)[0] == table_view(*p));
                assert(ps.skip(i as int).drop_first() =~= ps.skip(i + 1));
            }
            let t = match p {
                TableTypes::Variable(var) => {
                    let name = match &var.name {
                        Some(nm) => nm.clone(),
                        None => String::new(),
                    };
                    mk(Type::Param, strings1(name), None, None, Some(var.token_type.copy()), var.ptr.is_some())
                },
                _ => mk(Type::Param, strings1(extract_operand(p)), None, None, None, false),
            };
            self.push_tac(t);
            i = i + 1;
        }
        proof {
            assert(ps.skip(n as int) =~= Seq::<TableM>::empty());
        }
        self.memory_alloc = n * 16;
        if !self.generate_table(&function.table) {
            return false;
        }
        if self.tac_table.len() <= idx {
            return false;
        }
        let ghost g4 = self@;
        let ghost before = self.tac_table@;
        let mut t = mk(Type::Label, Vec::new(), None, None, None, false);
        self.tac_table.set_and_swap(idx, &mut t);
        push_string(&mut t.arguments, crate::text::decimal_string(self.memory_alloc as u64));
        self.tac_table.set(idx, t);
        proof {
            lemma_tacs_update(before, idx as int, t);
            assert(before[idx as int]@ == g4.tac[idx as int]);
            assert(tacs_view(self.tac_table@) =~= g4.tac.update(
                idx as int,
                TacM { arguments: g4.tac[idx as int].arguments.push(decimal(g4.mem)), ..g4.tac[idx as int] },
            ));
        }
        true
    }

    /// A conditional or a loop.
    fn add_conditional_block(&mut self, start: Type, end: Type, condition: &Vec<TableTypes>, table: &Vec<TableTypes>) -> (ok: bool)
        ensures
            ok == gen_block(old(self)@, start, end, tables_view(condition@), tables_view(table@)) is Some,
            ok ==> final(self)@ == gen_block(old(self)@, start, end, tables_view(condition@), tables_view(table@))->0,
        decreases table, 1nat,
    {
        let label = match self.next_label() {
            Some(l) => l,
            None => return false,
        };
        if start == Type::Loop {
            let mut v = chars_of(label.as_str());
            push_all(&mut v, &['_', 'l', 'o', 'o', 'p']);
            assert(v@ =~= label@ + seq!['_', 'l', 'o', 'o', 'p']);
            self.push_tac(mk(Type::Label, strings1(string_from(v.as_slice())), None, None, None, false));
        }
        let mut tac = mk(start, strings1(label.clone()), None, None, None, false);
        let ghost cv = tables_view(condition@);
        if condition.len() > 0 {
            proof {
                assert(cv[0] == table_view(condition@[0]));
            }
            match &condition[0] {
                TableTypes::Variable(var) => {
                    if !self.add_variable(var) {
                        return false;
                    }
                    self.attach_condition_info(&mut tac);
                },
                TableTypes::Reasingment(re) => {
                    if !self.add_reasingment(re) {
                        return false;
                    }
                    self.attach_condition_info(&mut tac);
                },
                _ => {},
            }
        }
        self.push_tac(tac);
        if !self.generate_table(table) {
            return false;
        }
        self.push_tac(mk(end, strings1(label), None, None, None, false));
        true
    }

    /// Code for every entry of `type_table`, appended to what was generated so far.
    pub fn generate(&mut self, type_table: Vec<TableTypes>)
        requires
            generate(old(self)@, tables_view(type_table@)) is Some,
        ensures
            final(self)@ == generate(old(self)@, tables_view(type_table@))->0,
            crate::block_labels::ends_grow(old(self)@, final(self)@),
    {
        proof {
            crate::block_labels::lemma_generate_blocks(self@, tables_view(type_table@));
        }
        let ok = self.generate_table(&type_table);
        assert(ok);
    }

    /// Code for every entry of `type_table`; false, with the generator in an
    /// unspecified state, where `generate` has no code for the table.
    pub fn try_generate(&mut self, type_table: &Vec<TableTypes>) -> (ok: bool)
        ensures
            ok == generate(old(self)@, tables_view(type_table@)) is Some,
            ok ==> final(self)@ == generate(old(self)@, tables_view(type_table@))->0,
            ok ==> crate::block_labels::ends_grow(old(self)@, final(self)@),
    {
        proof {
            crate::block_labels::lemma_generate_blocks(self@, tables_view(type_table@));
        }
        self.generate_table(type_table)
    }
}

/// The three-address code of a program's symbol table.
pub fn generate_three_address_code(type_table: Vec<TableTypes>) -> (r: Vec<Tac>)
    requires
        tac_of(tables_view(type_table@)) is Some,
    ensures
        tacs_view(r@) == tac_of(tables_view(type_table@))->0,
{
    let mut generator = ThreeAddressCodeGenerator::new();
    generator.generate(type_table);
    generator.into_table()
}

/// The three-address code of a program's symbol table, or nothing where
/// lowering it would overflow a counter or reach an entry without code.
pub fn try_generate_three_address_code(type_table: &Vec<TableTypes>) -> (r: Option<Vec<Tac>>)
    ensures
        match tac_of(tables_view(type_table@)) {
            None => r is None,
            Some(t) => r is Some && tacs_view(r->0@) == t,
        },
{
    let mut generator = ThreeAddressCodeGenerator::new();
    if generator.try_generate(type_table) {
        Some(generator.into_table())
    } else {
        None
    }
}

// ---------------------------------------------------------------------------
// Listing the code.

/// The parts joined with `sep` between them.
pub open spec fn join_seqs(parts: Seq<Seq<char>>, sep: Seq<char>) -> Seq<char>
    decreases parts.len(),
{
    if parts.len() == 0 {
        seq![]
    } else if parts.len() == 1 {
        parts[0]
    } else {
        join_seqs(parts.drop_last(), sep) + sep + parts.last()
    }
}

/// `s` repeated `n` times.
pub open spec fn repeat_seq(s: Seq<char>, n: nat) -> Seq<char>
    decreases n,
{
    if n == 0 {
        seq![]
    } else {
        repeat_seq(s, (n - 1) as nat) + s
    }
}

pub open spec fn arg_text(t: TacM, i: int) -> Seq<char> {
    if 0 <= i < t.arguments.len() {
        t.arguments[i]
    } else {
        "?"@
    }
}

pub open spec fn rest_args(t: TacM) -> Seq<Seq<char>> {
    if t.arguments.len() > 0 {
        t.arguments.skip(1)
    } else {
        seq![]
    }
}

pub open spec fn result_text(t: TacM) -> Seq<char> {
    match t.result {
        Some(r) => r,
        None => "?"@,
    }
}

/// The `{:?}` text of a list of strings.
pub open spec fn debug_list(parts: Seq<Seq<char>>) -> Seq<char> {
    "["@ + join_seqs(parts.map_values(|p: Seq<char>| str_debug(p)), ", "@) + "]"@
}

/// A condition of a conditional or loop: `(a op b)`, or its operands listed.
pub open spec fn condition_text(t: TacM) -> Seq<char> {
    let r = rest_args(t);
    if t.operator is Some && r.len() == 2 {
        "("@ + r[0] + " "@ + op_text(t.operator->0) + " "@ + r[1] + ")"@
    } else {
        "("@ + join_seqs(r, ", "@) + ")"@
    }
}

/// One instruction as a line of the listing, after `pad`.
pub open spec fn tac_text(t: TacM, pad: Seq<char>) -> Seq<char> {
    match t.tac_type {
        Type::Function => pad + "function "@ + arg_text(t, 0),
        Type::Param => pad + "param "@ + (match t.value_type {
            Some(v) => token_text(v),
            None => "unknown"@,
        }) + " "@ + arg_text(t, 0),
        Type::LoopEnd => pad + arg_text(t, 0) + ": end while"@,
        Type::Conditional => pad + " if "@ + condition_text(t),
        Type::Loop => pad + " while "@ + condition_text(t),
        Type::ConditionalEnd => pad + arg_text(t, 0) + ": end if"@,
        Type::Call => pad + "call "@ + arg_text(t, 0) + "("@ + join_seqs(rest_args(t), ", "@) + ")"@,
        Type::Variable | Type::Reasingment | Type::Return => {
            if t.operator is Some && t.arguments.len() == 2 {
                pad + result_text(t) + " = "@ + t.arguments[0] + " "@ + op_text(t.operator->0) + " "@ + t.arguments[1]
            } else if t.operator is None && t.arguments.len() == 1 {
                pad + result_text(t) + " = "@ + t.arguments[0]
            } else {
                pad + result_text(t) + " = "@ + debug_list(t.arguments)
            }
        },
        Type::AddressOf => pad + result_text(t) + " = &"@ + arg_text(t, 0),
        Type::Deref => pad + result_text(t) + " = *"@ + arg_text(t, 0),
        Type::DerefAssign => pad + "*"@ + arg_text(t, 0) + " = "@ + arg_text(t, 1),
        Type::ArrayDecl => pad + "array "@ + result_text(t) + "["@ + arg_text(t, 0) + "]"@,
        Type::ArrayIndex => pad + result_text(t) + " = "@ + arg_text(t, 0) + "["@ + arg_text(t, 1) + "]"@,
        Type::ArrayAssign => pad + result_text(t) + "["@ + arg_text(t, 0) + "] = "@ + arg_text(t, 1),
        Type::Label => pad + arg_text(t, 0) + ":"@,
        Type::GetReturn => pad + "get return value"@,
    }
}

/// The listing from instruction `i` on at indentation `indent`: an end of a
/// block or a function steps out first, a conditional or loop steps in
/// after itself, and a function's body is one step in.
pub open spec fn tac_lines(tacs: Seq<TacM>, i: nat, indent: nat) -> Seq<Seq<char>>
    decreases tacs.len() - i,
{
    if i >= tacs.len() {
        seq![]
    } else {
        let t = tacs[i as int];
        let ind1: nat = if t.tac_type is LoopEnd || t.tac_type is ConditionalEnd || t.tac_type is Function {
            if indent > 0 { (indent - 1) as nat } else { 0 }
        } else {
            indent
        };
        let ind2: nat = if t.tac_type is Loop || t.tac_type is Conditional {
            ind1 + 1
        } else if t.tac_type is Function {
            1
        } else {
            ind1
        };
        seq![tac_text(t, repeat_seq("    "@, ind1))] + tac_lines(tacs, i + 1, ind2)
    }
}

/// The listing has one line per instruction, and line `k` is instruction `k`
/// as `format_tac` shows it at some indentation of four-space steps.
pub proof fn lemma_tac_lines_one_per_instruction(tacs: Seq<TacM>, i: nat, indent: nat)
    requires
        i <= tacs.len(),
    ensures
        tac_lines(tacs, i, indent).len() == tacs.len() - i,
        forall|k: int| 0 <= k < tacs.len() - i ==> exists|n: nat|
            #[trigger] tac_lines(tacs, i, indent)[k] == tac_text(tacs[i + k], repeat_seq("    "@, n)),
    decreases tacs.len() - i,
{
    if i < tacs.len() {
        let t = tacs[i as int];
        let ind1: nat = if t.tac_type is LoopEnd || t.tac_type is ConditionalEnd || t.tac_type is Function {
            if indent > 0 { (indent - 1) as nat } else { 0 }
        } else {
            indent
        };
        let ind2: nat = if t.tac_type is Loop || t.tac_type is Conditional {
            ind1 + 1
        } else if t.tac_type is Function {
            1
        } else {
            ind1
        };
        lemma_tac_lines_one_per_instruction(tacs, i + 1, ind2);
        let rest = tac_lines(tacs, i + 1, ind2);
        assert(tac_lines(tacs, i, indent) == seq![tac_text(t, repeat_seq("    "@, ind1))] + rest);
        assert forall|k: int| 0 <= k < tacs.len() - i implies exists|n: nat|
            #[trigger] tac_lines(tacs, i, indent)[k] == tac_text(tacs[i + k], repeat_seq("    "@, n)) by {
            if k == 0 {
                assert(tac_lines(tacs, i, indent)[0] == tac_text(tacs[i + 0int], repeat_seq("    "@, ind1)));
            } else {
                assert(tac_lines(tacs, i, indent)[k] == rest[k - 1]);
                assert(i + k == (i + 1) + (k - 1));
                let n = choose|n: nat| #[trigger] rest[k - 1] == tac_text(tacs[(i + 1) + (k - 1)], repeat_seq("    "@, n));
                assert(tac_lines(tacs, i, indent)[k] == tac_text(tacs[i + k], repeat_seq("    "@, n)));
            }
        }
    }
}

fn join_into(out: &mut Vec<char>, parts: &[String], sep: &str)
    ensures
        final(out)@ == old(out)@ + join_seqs(strings_view(parts@), sep@),
{
    let ghost start = out@;
    let ghost pv = strings_view(parts@);
    let mut i: usize = 0;
    while i < parts.len()
        invariant
            i <= parts@.len(),
            pv == strings_view(parts@),
            out@ == start + join_seqs(pv.take(i as int), sep@),
        decreases parts@.len() - i,
    {
        let ghost before = out@;
        if i > 0 {
            push_all(out, lit(sep).as_slice());
        }
        push_all(out, chars_of(parts[i].as_str()).as_slice());
        let ghost tk = pv.take(i + 1);
        assert(tk.drop_last() =~= pv.take(i as int));
        assert(tk.last() == parts@[i as int]@);
        assert(out@ =~= start + join_seqs(tk, sep@));
        i = i + 1;
    }
    assert(pv.take(parts@.len() as int) =~= pv);
}

fn debug_list_into(out: &mut Vec<char>, parts: &[String])
    ensures
        final(out)@ == old(out)@ + debug_list(strings_view(parts@)),
{
    let mut ds: Vec<String> = Vec::new();
    let mut i: usize = 0;
    while i < parts.len()
        invariant
            i <= parts@.len(),
            ds@.len() == i,
            strings_view(ds@) == strings_view(parts@).take(i as int).map_values(|p: Seq<char>| str_debug(p)),
        decreases parts@.len() - i,
    {
        let ghost before = ds@;
        let d = crate::token::debug_str(parts[i].as_str());
        ds.push(d);
        let ghost lhs = strings_view(ds@);
        let ghost rhs = strings_view(parts@).take(i + 1).map_values(|p: Seq<char>| str_debug(p));
        assert(lhs.len() == rhs.len());
        assert forall|j: int| 0 <= j < lhs.len() implies lhs[j] == rhs[j] by {
            if j < i {
                assert(lhs[j] == strings_view(before)[j]);
            } else {
                assert(lhs[j] == d@);
            }
        }
        assert(lhs =~= rhs);
        i = i + 1;
    }
    assert(strings_view(parts@).take(parts@.len() as int) =~= strings_view(parts@));
    push_all(out, lit("[").as_slice());
    join_into(out, ds.as_slice(), ", ");
    push_all(out, lit("]").as_slice());
}

fn arg_into(out: &mut Vec<char>, t: &Tac, i: usize)
    ensures
        final(out)@ == old(out)@ + arg_text(t@, i as int),
{
    if i < t.arguments.len() {
        push_all(out, chars_of(t.arguments[i].as_str()).as_slice());
    } else {
        push_all(out, lit("?").as_slice());
    }
}

fn result_into(out: &mut Vec<char>, t: &Tac)
    ensures
        final(out)@ == old(out)@ + result_text(t@),
{
    match &t.result {
        Some(r) => push_all(out, chars_of(r.as_str()).as_slice()),
        None => push_all(out, lit("?").as_slice()),
    }
}

fn rest_slice(t: &Tac) -> (r: &[String])
    ensures
        strings_view(r@) == rest_args(t@),
{
    if t.arguments.len() > 0 {
        let a = t.arguments.as_slice();
        let r = vstd::slice::slice_subrange(a, 1, a.len());
        assert(strings_view(r@) =~= rest_args(t@));
        r
    } else {
        let e: &[String] = &[];
        assert(strings_view(e@) =~= seq![]);
        e
    }
}

fn condition_into(out: &mut Vec<char>, t: &Tac)
    ensures
        final(out)@ == old(out)@ + condition_text(t@),
{
    let r = rest_slice(t);
    if t.operator.is_some() && r.len() == 2 {
        push_all(out, lit("(").as_slice());
        push_all(out, chars_of(r[0].as_str()).as_slice());
        push_all(out, lit(" ").as_slice());
        push_all(out, t.operator.unwrap().as_text().as_slice());
        push_all(out, lit(" ").as_slice());
        push_all(out, chars_of(r[1].as_str()).as_slice());
        push_all(out, lit(")").as_slice());
    } else {
        push_all(out, lit("(").as_slice());
        join_into(out, r, ", ");
        push_all(out, lit(")").as_slice());
    }
}

/// One instruction as a line of the listing, after `pad`.
pub fn format_tac(tac: &Tac, pad: &str) -> (r: String)
    ensures
        r@ == tac_text(tac@, pad@),
{
    let mut out = chars_of(pad);
    match tac.tac_type {
        Type::Function => {
            push_all(&mut out, lit("function ").as_slice());
            arg_into(&mut out, tac, 0);
        },
        Type::Param => {
            push_all(&mut out, lit("param ").as_slice());
            match &tac.value_type {
                Some(v) => {
                    proof {
                        lemma_canon_text(*v);
                    }
                    push_all(&mut out, v.text().as_slice());
                },
                None => push_all(&mut out, lit("unknown").as_slice()),
            }
            push_all(&mut out, lit(" ").as_slice());
            arg_into(&mut out, tac, 0);
        },
        Type::LoopEnd => {
            arg_into(&mut out, tac, 0);
            push_all(&mut out, lit(": end while").as_slice());
        },
        Type::Conditional => {
            push_all(&mut out, lit(" if ").as_slice());
            condition_into(&mut out, tac);
        },
        Type::Loop => {
            push_all(&mut out, lit(" while ").as_slice());
            condition_into(&mut out, tac);
        },
        Type::ConditionalEnd => {
            arg_into(&mut out, tac, 0);
            push_all(&mut out, lit(": end if").as_slice());
        },
        Type::Call => {
            push_all(&mut out, lit("call ").as_slice());
            arg_into(&mut out, tac, 0);
            push_all(&mut out, lit("(").as_slice());
            join_into(&mut out, rest_slice(tac), ", ");
            push_all(&mut out, lit(")").as_slice());
        },
        Type::Variable | Type::Reasingment | Type::Return => {
            result_into(&mut out, tac);
            push_all(&mut out, lit(" = ").as_slice());
            if tac.operator.is_some() && tac.arguments.len() == 2 {
                push_all(&mut out, chars_of(tac.arguments[0].as_str()).as_slice());
                push_all(&mut out, lit(" ").as_slice());
                push_all(&mut out, tac.operator.unwrap().as_text().as_slice());
                push_all(&mut out, lit(" ").as_slice());
                push_all(&mut out, chars_of(tac.arguments[1].as_str()).as_slice());
            } else if tac.operator.is_none() && tac.arguments.len() == 1 {
                push_all(&mut out, chars_of(tac.arguments[0].as_str()).as_slice());
            } else {
                debug_list_into(&mut out, tac.arguments.as_slice());
            }
        },
        Type::AddressOf => {
            result_into(&mut out, tac);
            push_all(&mut out, lit(" = &").as_slice());
            arg_into(&mut out, tac, 0);
        },
        Type::Deref => {
            result_into(&mut out, tac);
            push_all(&mut out, lit(" = *").as_slice());
            arg_into(&mut out, tac, 0);
        },
        Type::DerefAssign => {
            push_all(&mut out, lit("*").as_slice());
            arg_into(&mut out, tac, 0);
            push_all(&mut out, lit(" = ").as_slice());
            arg_into(&mut out, tac, 1);
        },
        Type::ArrayDecl => {
            push_all(&mut out, lit("array ").as_slice());
            result_into(&mut out, tac);
            push_all(&mut out, lit("[").as_slice());
            arg_into(&mut out, tac, 0);
            push_all(&mut out, lit("]").as_slice());
        },
        Type::ArrayIndex => {
            result_into(&mut out, tac);
            push_all(&mut out, lit(" = ").as_slice());
            arg_into(&mut out, tac, 0);
            push_all(&mut out, lit("[").as_slice());
            arg_into(&mut out, tac, 1);
            push_all(&mut out, lit("]").as_slice());
        },
        Type::ArrayAssign => {
            result_into(&mut out, tac);
            push_all(&mut out, lit("[").as_slice());
            arg_into(&mut out, tac, 0);
            push_all(&mut out, lit("] = ").as_slice());
            arg_into(&mut out, tac, 1);
        },
        Type::Label => {
            arg_into(&mut out, tac, 0);
            push_all(&mut out, lit(":").as_slice());
        },
        Type::GetReturn => {
            push_all(&mut out, lit("get return value").as_slice());
        },
    }
    string_from(out.as_slice())
}

/// The listing of three-address code, one line per instruction, indented by block.
pub fn format_tac_table(tacs: &Vec<Tac>) -> (r: Vec<String>)
    ensures
        strings_view(r@) == tac_lines(tacs_view(tacs@), 0, 0),
{
    let ghost tv = tacs_view(tacs@);
    let mut out: Vec<String> = Vec::new();
    let mut indent: usize = 0;
    let mut i: usize = 0;
    while i < tacs.len()
        invariant
            i <= tacs@.len(),
            indent <= i,
            tv == tacs_view(tacs@),
            tac_lines(tv, 0, 0) == strings_view(out@) + tac_lines(tv, i as nat, indent as nat),
        decreases tacs@.len() - i,
    {
        let t = &tacs[i];
        assert(tv[i as int] == t@);
        let closes = matches!(t.tac_type, Type::LoopEnd | Type::ConditionalEnd | Type::Function);
        if closes && indent > 0 {
            indent = indent - 1;
        }
        let mut pad: Vec<char> = Vec::new();
        let mut k: usize = 0;
        while k < indent
            invariant
                k <= indent,
                pad@ == repeat_seq("    "@, k as nat),
            decreases indent - k,
        {
            push_all(&mut pad, lit("    ").as_slice());
            k = k + 1;
        }
        let line = format_tac(t, string_from(pad.as_slice()).as_str());
        let ghost before = out@;
        out.push(line);
        assert(strings_view(out@) =~= strings_view(before) + seq![line@]);
        if matches!(t.tac_type, Type::Loop | Type::Conditional) {
            indent = indent + 1;
        } else if matches!(t.tac_type, Type::Function) {
            indent = 1;
        }
        i = i + 1;
    }
    assert(strings_view(out@) + seq![] =~= strings_view(out@));
    out
}

} // verus!
