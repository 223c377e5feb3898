//! The entries of the symbol table that the semantic analyzer builds and the
//! three-address-code generator reads: variables, functions, assignments,
//! calls, conditionals, loops, returns and structs, with their models.
use vstd::prelude::*;
use crate::token::{TokenType, Scope, token_of, is_operator_token, is_value_token, canon, opt_canon};
use crate::text::{
    chars_of, string_from, string_of_char, slice_range, parse_usize, usize_of, first_where,
};

verus! {

/// How a variable or an argument is reached through memory.
#[derive(Debug, PartialEq, Eq, Structural, Clone, Copy)]
pub enum PointerType {
    /// `*name`: a pointer, or a dereference of one.
    Pointer,
    /// `&name`: a reference, or the address of a name.
    Reference,
}

/// One operand of an expression.
#[derive(Debug)]
pub enum Value {
    Var(String),
    FuncCall(FunctionCall),
    Deref(String),
    Ref(String),
    Index(String, String),
}

#[derive(Debug)]
pub struct Variable {
    pub token_type: TokenType,
    pub value: Option<Vec<Value>>,
    pub name: Option<String>,
    pub ptr: Option<PointerType>,
    pub is_array: bool,
    pub array_size: Option<usize>,
}

#[derive(Debug)]
pub struct Function {
    pub parameters: Option<Vec<TableTypes>>,
    pub name: Option<String>,
    pub table: Vec<TableTypes>,
    pub return_type: Option<TokenType>,
}

#[derive(Debug)]
pub struct Reasingment {
    pub target: usize,
    pub target_scope: Scope,
    pub parameters: Option<Vec<TableTypes>>,
    pub name: String,
    pub token_type: TokenType,
    pub ptr: Option<PointerType>,
    pub array_index: Option<String>,
}

#[derive(Debug)]
pub struct FunctionCall {
    pub target: usize,
    pub parameters: Option<Vec<TableTypes>>,
    pub name: String,
    pub scope: Scope,
}

#[derive(Debug)]
pub struct Conditional {
    pub condition: Vec<TableTypes>,
    pub table: Vec<TableTypes>,
}

#[derive(Debug)]
pub struct Loop {
    pub condition: Vec<TableTypes>,
    pub table: Vec<TableTypes>,
}

#[derive(Debug)]
pub struct Return {
    pub value: Option<Variable>,
}

#[derive(Debug)]
pub struct StructLiteral {
    pub name: String,
    pub arguments: Vec<TableTypes>,
    pub functions: Vec<TableTypes>,
}

/// An entry of a symbol table.
#[derive(Debug)]
pub enum TableTypes {
    Variable(Variable),
    Function(Function),
    Reasingment(Reasingment),
    FunctionCall(FunctionCall),
    Conditional(Conditional),
    Loop(Loop),
    Return(Return),
    StructLiteral(StructLiteral),
    Unknown,
}

// ---------------------------------------------------------------------------
// Models: the same shapes with character sequences for strings and sequences
// for vectors.

pub enum ValueM {
    Var(Seq<char>),
    FuncCall(CallM),
    Deref(Seq<char>),
    Ref(Seq<char>),
    Index(Seq<char>, Seq<char>),
}

pub struct VarM {
    pub token_type: TokenType,
    pub value: Option<Seq<ValueM>>,
    pub name: Option<Seq<char>>,
    pub ptr: Option<PointerType>,
    pub is_array: bool,
    pub array_size: Option<usize>,
}

pub struct FuncM {
    pub parameters: Option<Seq<TableM>>,
    pub name: Option<Seq<char>>,
    pub table: Seq<TableM>,
    pub return_type: Option<TokenType>,
}

pub struct ReasM {
    pub target: usize,
    pub target_scope: Scope,
    pub parameters: Option<Seq<TableM>>,
    pub name: Seq<char>,
    pub token_type: TokenType,
    pub ptr: Option<PointerType>,
    pub array_index: Option<Seq<char>>,
}

pub struct CallM {
    pub target: usize,
    pub parameters: Option<Seq<TableM>>,
    pub name: Seq<char>,
    pub scope: Scope,
}

/// A conditional or a loop: a condition and a body.
pub struct BranchM {
    pub condition: Seq<TableM>,
    pub table: Seq<TableM>,
}

pub struct RetM {
    pub value: Option<VarM>,
}

pub struct StructM {
    pub name: Seq<char>,
    pub arguments: Seq<TableM>,
    pub functions: Seq<TableM>,
}

pub enum TableM {
    Variable(VarM),
    Function(FuncM),
    Reasingment(ReasM),
    FunctionCall(CallM),
    Conditional(BranchM),
    Loop(BranchM),
    Return(RetM),
    StructLiteral(StructM),
    Unknown,
}

pub open spec fn value_view(v: Value) -> ValueM
    decreases v,
{
    match v {
        Value::Var(s) => ValueM::Var(s@),
        Value::FuncCall(fc) => ValueM::FuncCall(call_view(fc)),
        Value::Deref(s) => ValueM::Deref(s@),
        Value::Ref(s) => ValueM::Ref(s@),
        Value::Index(a, b) => ValueM::Index(a@, b@),
    }
}

pub open spec fn values_view(s: Seq<Value>) -> Seq<ValueM>
    decreases s,
{
    Seq::new(s.len(), |i: int| if 0 <= i < s.len() { value_view(s[i]) } else { ValueM::Var(seq![]) })
}

pub open spec fn tables_view(s: Seq<TableTypes>) -> Seq<TableM>
    decreases s,
{
    Seq::new(s.len(), |i: int| if 0 <= i < s.len() { table_view(s[i]) } else { TableM::Unknown })
}

pub open spec fn opt_tables_view(o: Option<Vec<TableTypes>>) -> Option<Seq<TableM>>
    decreases o,
{
    match o {
        Some(v) => Some(tables_view(v@)),
        None => None,
    }
}

pub open spec fn opt_string_view(o: Option<String>) -> Option<Seq<char>> {
    match o {
        Some(s) => Some(s@),
        None => None,
    }
}

pub open spec fn var_view(v: Variable) -> VarM
    decreases v,
{
    VarM {
        token_type: canon(v.token_type),
        value: match v.value {
            Some(vs) => Some(values_view(vs@)),
            None => None,
        },
        name: opt_string_view(v.name),
        ptr: v.ptr,
        is_array: v.is_array,
        array_size: v.array_size,
    }
}

pub open spec fn call_view(c: FunctionCall) -> CallM
    decreases c,
{
    CallM { target: c.target, parameters: opt_tables_view(c.parameters), name: c.name@, scope: c.scope }
}

pub open spec fn func_view(f: Function) -> FuncM
    decreases f,
{
    FuncM {
        parameters: opt_tables_view(f.parameters),
        name: opt_string_view(f.name),
        table: tables_view(f.table@),
        return_type: opt_canon(f.return_type),
    }
}

pub open spec fn reas_view(r: Reasingment) -> ReasM
    decreases r,
{
    ReasM {
        target: r.target,
        target_scope: r.target_scope,
        parameters: opt_tables_view(r.parameters),
        name: r.name@,
        token_type: canon(r.token_type),
        ptr: r.ptr,
        array_index: opt_string_view(r.array_index),
    }
}

pub open spec fn cond_view(c: Conditional) -> BranchM
    decreases c,
{
    BranchM { condition: tables_view(c.condition@), table: tables_view(c.table@) }
}

pub open spec fn loop_view(c: Loop) -> BranchM
    decreases c,
{
    BranchM { condition: tables_view(c.condition@), table: tables_view(c.table@) }
}

pub open spec fn ret_view(r: Return) -> RetM
    decreases r,
{
    RetM {
        value: match r.value {
            Some(v) => Some(var_view(v)),
            None => None,
        },
    }
}

pub open spec fn struct_view(s: StructLiteral) -> StructM
    decreases s,
{
    StructM { name: s.name@, arguments: tables_view(s.arguments@), functions: tables_view(s.functions@) }
}

pub open spec fn table_view(t: TableTypes) -> TableM
    decreases t,
{
    match t {
        TableTypes::Variable(v) => TableM::Variable(var_view(v)),
        TableTypes::Function(f) => TableM::Function(func_view(f)),
        TableTypes::Reasingment(r) => TableM::Reasingment(reas_view(r)),
        TableTypes::FunctionCall(c) => TableM::FunctionCall(call_view(c)),
        TableTypes::Conditional(c) => TableM::Conditional(cond_view(c)),
        TableTypes::Loop(l) => TableM::Loop(loop_view(l)),
        TableTypes::Return(r) => TableM::Return(ret_view(r)),
        TableTypes::StructLiteral(s) => TableM::StructLiteral(struct_view(s)),
        TableTypes::Unknown => TableM::Unknown,
    }
}

impl View for Value {
    type V = ValueM;

    open spec fn view(&self) -> ValueM {
        value_view(*self)
    }
}

impl View for Variable {
    type V = VarM;

    open spec fn view(&self) -> VarM {
        var_view(*self)
    }
}

impl View for Function {
    type V = FuncM;

    open spec fn view(&self) -> FuncM {
        func_view(*self)
    }
}

impl View for Reasingment {
    type V = ReasM;

    open spec fn view(&self) -> ReasM {
        reas_view(*self)
    }
}

impl View for FunctionCall {
    type V = CallM;

    open spec fn view(&self) -> CallM {
        call_view(*self)
    }
}

impl View for Conditional {
    type V = BranchM;

    open spec fn view(&self) -> BranchM {
        cond_view(*self)
    }
}

impl View for Loop {
    type V = BranchM;

    open spec fn view(&self) -> BranchM {
        loop_view(*self)
    }
}

impl View for Return {
    type V = RetM;

    open spec fn view(&self) -> RetM {
        ret_view(*self)
    }
}

impl View for StructLiteral {
    type V = StructM;

    open spec fn view(&self) -> StructM {
        struct_view(*self)
    }
}

impl View for TableTypes {
    type V = TableM;

    open spec fn view(&self) -> TableM {
        table_view(*self)
    }
}


// ---------------------------------------------------------------------------
// What the operations on entries do, over the models.

/// `name[index]` split into the name and the index text, when the word has
/// that shape: a non-empty name, a `[`, and a closing `]` at the end.
pub open spec fn array_split(s: Seq<char>) -> Option<(Seq<char>, Seq<char>)> {
    let p = first_where(s, |c: char| c == '[') as int;
    if 0 < p && p < s.len() - 1 && s.last() == ']' {
        Some((s.take(p), s.subrange(p + 1, s.len() - 1)))
    } else {
        None
    }
}

/// The operand a word stands for: an element of an array or a plain name.
pub open spec fn word_value(a: Seq<char>) -> ValueM {
    match array_split(a) {
        Some((n, i)) => ValueM::Index(n, i),
        None => ValueM::Var(a),
    }
}

pub open spec fn push_value(o: Option<Seq<ValueM>>, x: ValueM) -> Option<Seq<ValueM>> {
    match o {
        Some(s) => Some(s.push(x)),
        None => Some(seq![x]),
    }
}

pub open spec fn push_table(o: Option<Seq<TableM>>, x: TableM) -> Option<Seq<TableM>> {
    match o {
        Some(s) => Some(s.push(x)),
        None => Some(seq![x]),
    }
}

pub open spec fn var_new(t: TokenType) -> VarM {
    VarM { token_type: canon(t), value: None, name: None, ptr: None, is_array: false, array_size: None }
}

/// A variable gets its name from its first argument (an array declaration
/// `name[size]` also records the size); later arguments are its value.
pub open spec fn var_add(m: VarM, a: Seq<char>) -> VarM {
    if m.name is None {
        match array_split(a) {
            Some((n, sz)) => VarM { name: Some(n), is_array: true, array_size: usize_of(sz), ..m },
            None => VarM { name: Some(a), ..m },
        }
    } else {
        VarM { value: push_value(m.value, word_value(a)), ..m }
    }
}

pub open spec fn func_new() -> FuncM {
    FuncM { parameters: None, name: None, table: seq![], return_type: None }
}

/// The kinds a function may declare as its return type.
pub open spec fn is_return_type_token(t: TokenType) -> bool {
    t is Bool || t is Char || t is String || t is Int || t is Float
}

/// A function gets its name from its first argument; a later type word
/// sets its return type.
pub open spec fn func_add(m: FuncM, a: Seq<char>) -> FuncM {
    if m.name is None {
        FuncM { name: Some(a), ..m }
    } else if is_return_type_token(token_of(a)) {
        FuncM { return_type: Some(canon(token_of(a))), ..m }
    } else {
        m
    }
}

pub open spec fn reas_new() -> ReasM {
    ReasM {
        target: 0,
        target_scope: Scope::Root,
        parameters: None,
        name: seq![],
        token_type: TokenType::Unknow,
        ptr: None,
        array_index: None,
    }
}

/// The entry that a word adds to the right-hand side of an assignment or to
/// the arguments of a call.
pub open spec fn param_entry(a: Seq<char>) -> TableM {
    match table_new(token_of(a)) {
        TableM::Variable(v) => TableM::Variable(VarM { value: push_value(v.value, ValueM::Var(a)), ..v }),
        TableM::Reasingment(r) => TableM::Reasingment(ReasM { name: a, ..r }),
        other => other,
    }
}

pub open spec fn reas_add(m: ReasM, a: Seq<char>) -> ReasM {
    ReasM { parameters: push_table(m.parameters, param_entry(a)), ..m }
}

pub open spec fn reas_finished(m: ReasM) -> bool {
    match m.parameters {
        Some(p) => p.len() > 0,
        None => true,
    }
}

pub open spec fn call_new() -> CallM {
    CallM { target: 0, parameters: None, name: seq![], scope: Scope::Root }
}

pub open spec fn call_add(m: CallM, a: Seq<char>) -> CallM {
    CallM { parameters: push_table(m.parameters, param_entry(a)), ..m }
}

/// The hidden boolean variable, named `_`, that holds a condition.
pub open spec fn condition_var() -> VarM {
    VarM { name: Some(seq!['_']), ..var_new(TokenType::BoolLiteral) }
}

pub open spec fn branch_new() -> BranchM {
    BranchM { condition: seq![TableM::Variable(condition_var())], table: seq![] }
}

/// Arguments of a conditional or loop go to its condition variable.
pub open spec fn branch_add(m: BranchM, a: Seq<char>) -> BranchM {
    if m.condition.len() > 0 && m.condition.last() is Variable {
        BranchM {
            condition: m.condition.update(
                m.condition.len() - 1,
                TableM::Variable(var_add(m.condition.last()->Variable_0, a)),
            ),
            ..m
        }
    } else {
        m
    }
}

pub open spec fn ret_new(t: TokenType) -> RetM {
    RetM { value: Some(VarM { name: Some(seq!['_']), ..var_new(t) }) }
}

pub open spec fn ret_add(m: RetM, a: Seq<char>) -> RetM {
    match m.value {
        Some(v) => RetM { value: Some(var_add(v, a)) },
        None => m,
    }
}

pub open spec fn struct_new() -> StructM {
    StructM { name: seq![], arguments: seq![], functions: seq![] }
}

/// A struct gets its name from its first argument.
pub open spec fn struct_add(m: StructM, a: Seq<char>) -> StructM {
    if m.name.len() == 0 {
        StructM { name: a, ..m }
    } else {
        m
    }
}

/// The entry a token starts.
pub open spec fn table_new(t: TokenType) -> TableM {
    if is_operator_token(t) {
        TableM::Variable(var_new(t))
    } else {
        match t {
            TokenType::FnLiteral => TableM::Function(func_new()),
            TokenType::Return => TableM::Return(ret_new(t)),
            TokenType::If | TokenType::Else => TableM::Conditional(branch_new()),
            TokenType::WhileLoop => TableM::Loop(branch_new()),
            TokenType::Unknow => TableM::Reasingment(reas_new()),
            TokenType::Int | TokenType::Float | TokenType::Double | TokenType::Bool | TokenType::Char
            | TokenType::String | TokenType::StructDef(_) => TableM::Variable(var_new(t)),
            TokenType::StructLiteral => TableM::StructLiteral(struct_new()),
            _ => if is_value_token(t) {
                TableM::Variable(var_new(t))
            } else {
                TableM::Unknown
            },
        }
    }
}

/// Whether an entry needs no more arguments to be complete.
pub open spec fn table_finished(m: TableM) -> bool {
    match m {
        TableM::Variable(v) => v.name is Some,
        TableM::Function(f) => f.name is Some,
        TableM::Reasingment(r) => reas_finished(r),
        TableM::FunctionCall(_) => true,
        TableM::Conditional(_) => false,
        TableM::Loop(_) => false,
        TableM::Return(_) => false,
        TableM::StructLiteral(s) => s.name.len() > 0,
        TableM::Unknown => true,
    }
}

/// An entry after it takes one more argument.
pub open spec fn table_add(m: TableM, a: Seq<char>) -> TableM {
    match m {
        TableM::Variable(v) => TableM::Variable(var_add(v, a)),
        TableM::Function(f) => TableM::Function(func_add(f, a)),
        TableM::Reasingment(r) => TableM::Reasingment(reas_add(r, a)),
        TableM::FunctionCall(c) => TableM::FunctionCall(call_add(c, a)),
        TableM::Conditional(c) => TableM::Conditional(branch_add(c, a)),
        TableM::Loop(l) => TableM::Loop(branch_add(l, a)),
        TableM::Return(r) => TableM::Return(ret_add(r, a)),
        TableM::StructLiteral(s) => TableM::StructLiteral(struct_add(s, a)),
        TableM::Unknown => TableM::Unknown,
    }
}

/// The call that a variable's value ends with, if it ends with one.
pub open spec fn var_pending_call(m: VarM) -> Option<CallM> {
    match m.value {
        Some(vs) => if vs.len() > 0 && vs.last() is FuncCall {
            Some(vs.last()->FuncCall_0)
        } else {
            None
        },
        None => None,
    }
}

// ---------------------------------------------------------------------------
// Lemmas on the views of vectors.

pub proof fn lemma_tables_push(s: Seq<TableTypes>, x: TableTypes)
    ensures
        tables_view(s.push(x)) == tables_view(s).push(table_view(x)),
{
    assert(tables_view(s.push(x)) =~= tables_view(s).push(table_view(x)));
}

pub proof fn lemma_values_push(s: Seq<Value>, x: Value)
    ensures
        values_view(s.push(x)) == values_view(s).push(value_view(x)),
{
    assert(values_view(s.push(x)) =~= values_view(s).push(value_view(x)));
}

pub proof fn lemma_tables_update(s: Seq<TableTypes>, i: int, x: TableTypes)
    requires
        0 <= i < s.len(),
    ensures
        tables_view(s.update(i, x)) == tables_view(s).update(i, table_view(x)),
{
    assert(tables_view(s.update(i, x)) =~= tables_view(s).update(i, table_view(x)));
}

pub proof fn lemma_values_update(s: Seq<Value>, i: int, x: Value)
    requires
        0 <= i < s.len(),
    ensures
        values_view(s.update(i, x)) == values_view(s).update(i, value_view(x)),
{
    assert(values_view(s.update(i, x)) =~= values_view(s).update(i, value_view(x)));
}

pub proof fn lemma_tables_drop_last(s: Seq<TableTypes>)
    requires
        s.len() > 0,
    ensures
        tables_view(s.drop_last()) == tables_view(s).drop_last(),
        tables_view(s).last() == table_view(s.last()),
{
    assert(tables_view(s.drop_last()) =~= tables_view(s).drop_last());
}

pub proof fn lemma_tables_empty()
    ensures
        tables_view(Seq::<TableTypes>::empty()) == Seq::<TableM>::empty(),
{
    assert(tables_view(Seq::<TableTypes>::empty()) =~= Seq::<TableM>::empty());
}

// ---------------------------------------------------------------------------
// Executable operations.

/// `name[index]` split into name and index characters.
pub fn array_split_chars(s: &[char]) -> (r: Option<(Vec<char>, Vec<char>)>)
    ensures
        match r {
            Some((n, i)) => array_split(s@) == Some((n@, i@)),
            None => array_split(s@) is None,
        },
{
    let n = s.len();
    let mut p: usize = 0;
    while p < n && s[p] != '['
        invariant
            p <= n,
            n == s@.len(),
            forall|j: int| 0 <= j < p ==> s@[j] != '[',
        decreases n - p,
    {
        p = p + 1;
    }
    proof {
        crate::text::lemma_first_where_unique(s@, |c: char| c == '[', p as int);
    }
    if 0 < p && n >= 1 && p < n - 1 && s[n - 1] == ']' {
        let name = slice_range(s, 0, p);
        let idx = slice_range(s, p + 1, n - 1);
        assert(name@ =~= s@.take(p as int));
        Some((name, idx))
    } else {
        None
    }
}

/// `name[index]` split into the array's name and the index text.
pub fn parse_array_syntax(s: &str) -> (r: Option<(String, String)>)
    ensures
        match r {
            Some((n, i)) => array_split(s@) == Some((n@, i@)),
            None => array_split(s@) is None,
        },
{
    let v = chars_of(s);
    match array_split_chars(v.as_slice()) {
        Some((n, i)) => Some((string_from(n.as_slice()), string_from(i.as_slice()))),
        None => None,
    }
}

/// The entry that an argument word adds to an assignment or a call.
pub fn param_entry_of(argument: String) -> (r: TableTypes)
    ensures
        r@ == param_entry(argument@),
{
    let mut table_type = TableTypes::from_token(TokenType::from_str(argument.as_str()));
    match table_type {
        TableTypes::Variable(mut v) => {
            let mut vals = match v.value.take() {
                Some(vals) => vals,
                None => Vec::new(),
            };
            let ghost before = vals@;
            vals.push(Value::Var(argument));
            proof {
                lemma_values_push(before, vals@.last());
                assert(values_view(before) =~= seq![] || true);
            }
            v.value = Some(vals);
            proof {
                assert(before.len() == 0 ==> values_view(before.push(vals@.last())) =~= seq![values_view(before.push(vals@.last())).last()]);
            }
            TableTypes::Variable(v)
        },
        TableTypes::Reasingment(mut r) => {
            r.name = argument;
            TableTypes::Reasingment(r)
        },
        other => other,
    }
}

/// Pushes an entry to an optional table, creating the table when absent.
pub fn push_opt_table(o: &mut Option<Vec<TableTypes>>, x: TableTypes)
    ensures
        opt_tables_view(*final(o)) == push_table(opt_tables_view(*old(o)), table_view(x)),
{
    let mut v = match o.take() {
        Some(v) => v,
        None => Vec::new(),
    };
    let ghost before = v@;
    v.push(x);
    proof {
        lemma_tables_push(before, x);
        assert(before.len() == 0 ==> tables_view(before) =~= Seq::<TableM>::empty());
        assert(before.len() == 0 ==> tables_view(before).push(table_view(x)) =~= seq![table_view(x)]);
    }
    *o = Some(v);
}

/// Pushes a value to an optional value list, creating the list when absent.
pub fn push_opt_value(o: &mut Option<Vec<Value>>, x: Value)
    ensures
        match *final(o) {
            Some(vs) => Some(values_view(vs@)),
            None => None::<Seq<ValueM>>,
        } == push_value(
            match *old(o) {
                Some(vs) => Some(values_view(vs@)),
                None => None,
            },
            value_view(x),
        ),
{
    let mut v = match o.take() {
        Some(v) => v,
        None => Vec::new(),
    };
    let ghost before = v@;
    v.push(x);
    proof {
        lemma_values_push(before, x);
        assert(before.len() == 0 ==> values_view(before) =~= Seq::<ValueM>::empty());
        assert(before.len() == 0 ==> values_view(before).push(value_view(x)) =~= seq![value_view(x)]);
    }
    *o = Some(v);
}

/// The operations every kind of entry offers while the analyzer fills it.
pub trait Types: Sized {
    /// A fresh entry started by `token`.
    fn new(token: TokenType) -> Self;

    /// Whether the entry needs no more arguments.
    fn finished_definition(&self) -> bool;

    /// Gives the entry one more argument word.
    fn add_arguments(&mut self, argument: String);
}

impl Variable {
    /// The call the variable's value ends with, if any.
    pub fn pending_call(&self) -> (r: Option<&FunctionCall>)
        ensures
            match r {
                Some(fc) => var_pending_call(self@) == Some(fc@),
                None => var_pending_call(self@) is None,
            },
    {
        match &self.value {
            Some(vals) => {
                if vals.len() == 0 {
                    return None;
                }
                let last = &vals[vals.len() - 1];
                proof {
                    assert(values_view(vals@).last() == value_view(vals@.last()));
                }
                match last {
                    Value::FuncCall(fc) => Some(fc),
                    _ => None,
                }
            },
            None => None,
        }
    }
}

impl Variable {
    /// The call the variable's value ends with, if any, to be filled in.
    pub fn pending_call_mut(&mut self) -> (r: Option<&mut FunctionCall>)
        ensures
            match var_pending_call(old(self)@) {
                None => r is None && final(self)@ == old(self)@,
                Some(c) => r matches Some(fc) && fc@ == c && final(self)@ == (VarM {
                    value: Some(old(self)@.value->0.update(
                        old(self)@.value->0.len() - 1,
                        ValueM::FuncCall(final(fc)@),
                    )),
                    ..old(self)@
                }),
            },
    {
        match &mut self.value {
            Some(vals) => {
                let n = vals.len();
                if n == 0 {
                    assert(values_view(vals@).len() == 0);
                    return None;
                }
                assert(values_view(vals@).last() == value_view(vals@.last()));
                if !matches!(&vals[n - 1], Value::FuncCall(_)) {
                    return None;
                }
                let ghost before = vals@;
                let last = vec_last_mut(vals);
                match last {
                    Value::FuncCall(fc) => {
                        proof {
                            lemma_values_update(before, n - 1, Value::FuncCall(*final(fc)));
                        }
                        Some(fc)
                    },
                    _ => None,
                }
            },
            None => None,
        }
    }
}

fn vec_last_mut(v: &mut Vec<Value>) -> (r: &mut Value)
    requires
        old(v)@.len() > 0,
    ensures
        *r == old(v)@.last(),
        final(v)@ == old(v)@.update(old(v)@.len() - 1, *final(r)),
{
    let n = v.len();
    &mut v[n - 1]
}

impl Types for Variable {
    fn new(token: TokenType) -> (r: Variable)
        ensures
            r@ == var_new(token),
    {
        Variable { token_type: token, value: None, name: None, ptr: None, is_array: false, array_size: None }
    }

    fn finished_definition(&self) -> (r: bool)
        ensures
            r == (self@.name is Some),
    {
        self.name.is_some()
    }

    fn add_arguments(&mut self, argument: String)
        ensures
            final(self)@ == var_add(old(self)@, argument@),
    {
        let chars = chars_of(argument.as_str());
        if self.name.is_none() {
            match array_split_chars(chars.as_slice()) {
                Some((n, sz)) => {
                    let size = parse_usize(sz.as_slice());
                    self.name = Some(string_from(n.as_slice()));
                    self.is_array = true;
                    self.array_size = size;
                },
                None => {
                    self.name = Some(argument);
                },
            }
        } else {
            let val = match array_split_chars(chars.as_slice()) {
                Some((n, i)) => Value::Index(string_from(n.as_slice()), string_from(i.as_slice())),
                None => Value::Var(argument),
            };
            push_opt_value(&mut self.value, val);
        }
    }
}

impl Types for Function {
    fn new(token: TokenType) -> (r: Function)
        ensures
            r@ == func_new(),
    {
        let r = Function { parameters: None, name: None, table: Vec::new(), return_type: None };
        proof {
            lemma_tables_empty();
        }
        r
    }

    fn finished_definition(&self) -> (r: bool)
        ensures
            r == (self@.name is Some),
    {
        self.name.is_some()
    }

    fn add_arguments(&mut self, argument: String)
        ensures
            final(self)@ == func_add(old(self)@, argument@),
    {
        if self.name.is_none() {
            self.name = Some(argument);
        } else {
            let token = TokenType::from_str(argument.as_str());
            match token {
                TokenType::Bool | TokenType::Char | TokenType::String | TokenType::Int | TokenType::Float => {
                    self.return_type = Some(token);
                },
                _ => {},
            }
        }
    }
}

impl Types for Reasingment {
    fn new(token: TokenType) -> (r: Reasingment)
        ensures
            r@ == reas_new(),
    {
        Reasingment {
            target: 0,
            target_scope: Scope::Root,
            parameters: None,
            name: String::new(),
            token_type: TokenType::Unknow,
            ptr: None,
            array_index: None,
        }
    }

    fn finished_definition(&self) -> (r: bool)
        ensures
            r == reas_finished(self@),
    {
        match &self.parameters {
            Some(p) => p.len() != 0,
            None => true,
        }
    }

    fn add_arguments(&mut self, argument: String)
        ensures
            final(self)@ == reas_add(old(self)@, argument@),
    {
        let entry = param_entry_of(argument);
        push_opt_table(&mut self.parameters, entry);
    }
}

impl Types for FunctionCall {
    fn new(token: TokenType) -> (r: FunctionCall)
        ensures
            r@ == call_new(),
    {
        FunctionCall { target: 0, parameters: None, name: String::new(), scope: Scope::Root }
    }

    fn finished_definition(&self) -> (r: bool)
        ensures
            r == true,
    {
        true
    }

    fn add_arguments(&mut self, argument: String)
        ensures
            final(self)@ == call_add(old(self)@, argument@),
    {
        let entry = param_entry_of(argument);
        push_opt_table(&mut self.parameters, entry);
    }
}

/// The condition variable of a fresh conditional or loop.
fn new_condition() -> (r: Vec<TableTypes>)
    ensures
        tables_view(r@) == seq![TableM::Variable(condition_var())],
{
    let mut var = Variable::new(TokenType::BoolLiteral);
    var.name = Some(string_of_char('_'));
    let mut v: Vec<TableTypes> = Vec::new();
    v.push(TableTypes::Variable(var));
    assert(tables_view(v@) =~= seq![TableM::Variable(condition_var())]);
    v
}

/// Gives the last entry of a condition one more argument when it is a variable.
fn add_to_condition(condition: &mut Vec<TableTypes>, argument: String)
    ensures
        tables_view(final(condition)@) == branch_add(
            BranchM { condition: tables_view(old(condition)@), table: seq![] },
            argument@,
        ).condition,
{
    let n = condition.len();
    if n == 0 {
        return;
    }
    let ghost old_v = condition@;
    let last = condition.pop().unwrap();
    proof {
        lemma_tables_drop_last(old_v);
    }
    match last {
        TableTypes::Variable(mut v) => {
            v.add_arguments(argument);
            condition.push(TableTypes::Variable(v));
            proof {
                lemma_tables_push(old_v.drop_last(), condition@.last());
                assert(tables_view(condition@) =~= tables_view(old_v).update(
                    n - 1,
                    TableM::Variable(var_add(tables_view(old_v).last()->Variable_0, argument@)),
                ));
            }
        },
        other => {
            condition.push(other);
            proof {
                lemma_tables_push(old_v.drop_last(), condition@.last());
                assert(condition@ =~= old_v);
            }
        },
    }
}

impl Types for Conditional {
    fn new(token: TokenType) -> (r: Conditional)
        ensures
            r@ == branch_new(),
    {
        let r = Conditional { condition: new_condition(), table: Vec::new() };
        proof {
            lemma_tables_empty();
        }
        r
    }

    fn finished_definition(&self) -> (r: bool)
        ensures
            r == false,
    {
        false
    }

    fn add_arguments(&mut self, argument: String)
        ensures
            final(self)@ == branch_add(old(self)@, argument@),
    {
        add_to_condition(&mut self.condition, argument);
    }
}

impl Types for Loop {
    fn new(token: TokenType) -> (r: Loop)
        ensures
            r@ == branch_new(),
    {
        let r = Loop { condition: new_condition(), table: Vec::new() };
        proof {
            lemma_tables_empty();
        }
        r
    }

    fn finished_definition(&self) -> (r: bool)
        ensures
            r == false,
    {
        false
    }

    fn add_arguments(&mut self, argument: String)
        ensures
            final(self)@ == branch_add(old(self)@, argument@),
    {
        add_to_condition(&mut self.condition, argument);
    }
}

impl Types for Return {
    fn new(token: TokenType) -> (r: Return)
        ensures
            r@ == ret_new(token),
    {
        let mut var = Variable::new(token);
        var.name = Some(string_of_char('_'));
        Return { value: Some(var) }
    }

    fn finished_definition(&self) -> (r: bool)
        ensures
            r == false,
    {
        false
    }

    fn add_arguments(&mut self, argument: String)
        ensures
            final(self)@ == ret_add(old(self)@, argument@),
    {
        match self.value.take() {
            Some(mut v) => {
                v.add_arguments(argument);
                self.value = Some(v);
            },
            None => {},
        }
    }
}

impl Types for StructLiteral {
    fn new(token: TokenType) -> (r: StructLiteral)
        ensures
            r@ == struct_new(),
    {
        let r = StructLiteral { name: String::new(), arguments: Vec::new(), functions: Vec::new() };
        proof {
            lemma_tables_empty();
        }
        r
    }

    fn finished_definition(&self) -> (r: bool)
        ensures
            r == (self@.name.len() > 0),
    {
        !self.name.as_str().is_empty()
    }

    fn add_arguments(&mut self, argument: String)
        ensures
            final(self)@ == struct_add(old(self)@, argument@),
    {
        if self.name.as_str().is_empty() {
            self.name = argument;
        }
    }
}

impl TableTypes {
    /// The entry that `token` starts.
    pub fn from_token(token: TokenType) -> (r: TableTypes)
        ensures
            r@ == table_new(token),
    {
        let t2 = token.copy();
        if TokenType::is_operator(t2) {
            return TableTypes::Variable(Variable::new(token));
        }
        match token {
            TokenType::FnLiteral => TableTypes::Function(Function::new(token)),
            TokenType::Return => TableTypes::Return(Return::new(token)),
            TokenType::If | TokenType::Else => TableTypes::Conditional(Conditional::new(token)),
            TokenType::WhileLoop => TableTypes::Loop(Loop::new(token)),
            TokenType::Unknow => TableTypes::Reasingment(Reasingment::new(TokenType::Unknow)),
            TokenType::Int | TokenType::Float | TokenType::Double | TokenType::Bool | TokenType::Char
            | TokenType::String | TokenType::StructDef(_) => TableTypes::Variable(Variable::new(token)),
            TokenType::StructLiteral => TableTypes::StructLiteral(StructLiteral::new(token)),
            _ => {
                let t3 = token.copy();
                if TokenType::is_value(t3) {
                    TableTypes::Variable(Variable::new(token))
                } else {
                    TableTypes::Unknown
                }
            },
        }
    }

    /// Whether the entry needs no more arguments.
    pub fn finished_definition(&self) -> (r: bool)
        ensures
            r == table_finished(self@),
    {
        match self {
            TableTypes::Variable(var) => var.finished_definition(),
            TableTypes::Function(fun) => fun.finished_definition(),
            TableTypes::Reasingment(asing) => asing.finished_definition(),
            TableTypes::FunctionCall(fc) => fc.finished_definition(),
            TableTypes::Conditional(con) => con.finished_definition(),
            TableTypes::Loop(while_loop) => while_loop.finished_definition(),
            TableTypes::Return(ret) => ret.finished_definition(),
            TableTypes::StructLiteral(struct_literal) => struct_literal.finished_definition(),
            _ => true,
        }
    }

    /// Gives the entry one more argument word.
    pub fn add_arguments(&mut self, argument: String)
        ensures
            final(self)@ == table_add(old(self)@, argument@),
    {
        match self {
            TableTypes::Variable(var) => var.add_arguments(argument),
            TableTypes::Function(fun) => fun.add_arguments(argument),
            TableTypes::Reasingment(reasing) => reasing.add_arguments(argument),
            TableTypes::FunctionCall(fc) => fc.add_arguments(argument),
            TableTypes::Conditional(con) => con.add_arguments(argument),
            TableTypes::Loop(while_loop) => while_loop.add_arguments(argument),
            TableTypes::Return(ret) => ret.add_arguments(argument),
            TableTypes::StructLiteral(struct_literal) => struct_literal.add_arguments(argument),
            _ => {},
        }
    }
}


// ---------------------------------------------------------------------------
// Copies (the entries hold vectors, so copying is written out).

/// A copy of a list of entries.
pub fn copy_tables(v: &Vec<TableTypes>) -> (r: Vec<TableTypes>)
    ensures
        tables_view(r@) == tables_view(v@),
    decreases v, 0nat,
{
    let mut r: Vec<TableTypes> = Vec::new();
    let n = v.len();
    let mut i: usize = 0;
    while i < n
        invariant
            n == v@.len(),
            i <= n,
            r@.len() == i,
            forall|j: int| 0 <= j < i ==> table_view(#[trigger] r@[j]) == table_view(v@[j]),
        decreases n - i,
    {
        proof {
            vstd::std_specs::vec::axiom_vec_index_decreases(*v, i as int);
        }
        let c = v[i].copy();
        r.push(c);
        i = i + 1;
    }
    assert(tables_view(r@) =~= tables_view(v@));
    r
}

/// A copy of an optional list of entries.
pub fn copy_opt_tables(o: &Option<Vec<TableTypes>>) -> (r: Option<Vec<TableTypes>>)
    ensures
        opt_tables_view(r) == opt_tables_view(*o),
    decreases o, 1nat,
{
    match o {
        Some(v) => Some(copy_tables(v)),
        None => None,
    }
}

/// A copy of a list of values.
pub fn copy_values(v: &Vec<Value>) -> (r: Vec<Value>)
    ensures
        values_view(r@) == values_view(v@),
    decreases v, 0nat,
{
    let mut r: Vec<Value> = Vec::new();
    let n = v.len();
    let mut i: usize = 0;
    while i < n
        invariant
            n == v@.len(),
            i <= n,
            r@.len() == i,
            forall|j: int| 0 <= j < i ==> value_view(#[trigger] r@[j]) == value_view(v@[j]),
        decreases n - i,
    {
        proof {
            vstd::std_specs::vec::axiom_vec_index_decreases(*v, i as int);
        }
        let c = v[i].copy();
        r.push(c);
        i = i + 1;
    }
    assert(values_view(r@) =~= values_view(v@));
    r
}

impl Value {
    pub fn copy(&self) -> (r: Value)
        ensures
            r@ == self@,
        decreases self, 0nat,
    {
        match self {
            Value::Var(s) => Value::Var(s.clone()),
            Value::FuncCall(fc) => Value::FuncCall(fc.copy()),
            Value::Deref(s) => Value::Deref(s.clone()),
            Value::Ref(s) => Value::Ref(s.clone()),
            Value::Index(a, b) => Value::Index(a.clone(), b.clone()),
        }
    }
}

impl Variable {
    pub fn copy(&self) -> (r: Variable)
        ensures
            r@ == self@,
        decreases self, 0nat,
    {
        Variable {
            token_type: self.token_type.copy(),
            value: match &self.value {
                Some(vs) => Some(copy_values(vs)),
                None => None,
            },
            name: self.name.clone(),
            ptr: self.ptr,
            is_array: self.is_array,
            array_size: self.array_size,
        }
    }
}

impl FunctionCall {
    pub fn copy(&self) -> (r: FunctionCall)
        ensures
            r@ == self@,
        decreases self, 0nat,
    {
        FunctionCall {
            target: self.target,
            parameters: copy_opt_tables(&self.parameters),
            name: self.name.clone(),
            scope: self.scope,
        }
    }
}

impl Function {
    pub fn copy(&self) -> (r: Function)
        ensures
            r@ == self@,
        decreases self, 0nat,
    {
        Function {
            parameters: copy_opt_tables(&self.parameters),
            name: self.name.clone(),
            table: copy_tables(&self.table),
            return_type: match &self.return_type {
                Some(t) => Some(t.copy()),
                None => None,
            },
        }
    }
}

impl Reasingment {
    pub fn copy(&self) -> (r: Reasingment)
        ensures
            r@ == self@,
        decreases self, 0nat,
    {
        Reasingment {
            target: self.target,
            target_scope: self.target_scope,
            parameters: copy_opt_tables(&self.parameters),
            name: self.name.clone(),
            token_type: self.token_type.copy(),
            ptr: self.ptr,
            array_index: self.array_index.clone(),
        }
    }
}

impl Conditional {
    pub fn copy(&self) -> (r: Conditional)
        ensures
            r@ == self@,
        decreases self, 0nat,
    {
        Conditional { condition: copy_tables(&self.condition), table: copy_tables(&self.table) }
    }
}

impl Loop {
    pub fn copy(&self) -> (r: Loop)
        ensures
            r@ == self@,
        decreases self, 0nat,
    {
        Loop { condition: copy_tables(&self.condition), table: copy_tables(&self.table) }
    }
}

impl Return {
    pub fn copy(&self) -> (r: Return)
        ensures
            r@ == self@,
        decreases self, 0nat,
    {
        Return {
            value: match &self.value {
                Some(v) => Some(v.copy()),
                None => None,
            },
        }
    }
}

impl StructLiteral {
    pub fn copy(&self) -> (r: StructLiteral)
        ensures
            r@ == self@,
        decreases self, 0nat,
    {
        StructLiteral {
            name: self.name.clone(),
            arguments: copy_tables(&self.arguments),
            functions: copy_tables(&self.functions),
        }
    }
}

impl TableTypes {
    pub fn copy(&self) -> (r: TableTypes)
        ensures
            r@ == self@,
        decreases self, 0nat,
    {
        match self {
            TableTypes::Variable(v) => TableTypes::Variable(v.copy()),
            TableTypes::Function(f) => TableTypes::Function(f.copy()),
            TableTypes::Reasingment(r) => TableTypes::Reasingment(r.copy()),
            TableTypes::FunctionCall(c) => TableTypes::FunctionCall(c.copy()),
            TableTypes::Conditional(c) => TableTypes::Conditional(c.copy()),
            TableTypes::Loop(l) => TableTypes::Loop(l.copy()),
            TableTypes::Return(r) => TableTypes::Return(r.copy()),
            TableTypes::StructLiteral(s) => TableTypes::StructLiteral(s.copy()),
            TableTypes::Unknown => TableTypes::Unknown,
        }
    }
}

} // verus!
