//! The semantic analyzer: reads the parsed blocks word by word and builds
//! the symbol table (variables, functions, assignments, calls, conditionals,
//! loops, returns and structs), resolving names to where they were declared
//! and collecting the errors it finds.
//!
//! New entries go to the "active" table: the body (or, while parameters are
//! being read, the parameter list) of the innermost open function,
//! conditional, loop or struct, as deep as the current nesting allows.
use vstd::prelude::*;
pub use crate::token::{TokenType, Scope};
pub use crate::variable_types::TableTypes;
use crate::token::{
    token_of, token_text, is_operator_token, is_value_token, literal_type_of, tok_eq, canon, literal_keyword,
    str_canon, opt_canon, lemma_canon_text, lemma_tok_eq_canon,
};
use crate::variable_types::{
    Variable, Function, Reasingment, FunctionCall, Conditional, Loop, Return, StructLiteral,
    Types, Value, PointerType, TableM, VarM, FuncM, ReasM, CallM, BranchM, RetM, StructM,
    ValueM, tables_view, table_view, values_view, value_view, opt_tables_view, table_new,
    table_finished, table_add, var_pending_call, array_split, call_add, lemma_tables_push,
    lemma_tables_update, lemma_tables_drop_last, lemma_values_update,
};
use crate::parser::{Block, Word, WordM, BlockM, block_view, blocks_view, words_view, lines_view};
use crate::enbeded_funcs::{functions, builtin_name, builtin_count};
use crate::text::{chars_of, chars_eq, string_from, push_all, push_decimal, decimal};
use crate::three_address_code_gen::repeat_seq;

verus! {

/// An error found in the source, with the line and column of the word it is about.
pub struct Error {
    pub msg: String,
    pub line: usize,
    pub char: usize,
}

pub struct ErrM {
    pub msg: Seq<char>,
    pub line: usize,
    pub ch: usize,
}

impl View for Error {
    type V = ErrM;

    open spec fn view(&self) -> ErrM {
        ErrM { msg: self.msg@, line: self.line, ch: self.char }
    }
}

pub open spec fn errors_view(s: Seq<Error>) -> Seq<ErrM> {
    Seq::new(s.len(), |i: int| s[i]@)
}

/// What a name resolved to.
#[derive(Debug, PartialEq, Eq, Structural, Clone, Copy)]
pub enum ResolveType {
    Variable,
    Function,
    Struct,
}

/// One step down from a table into the entry it ends with: a function's,
/// conditional's or loop's body, a function's parameters, or a struct's
/// methods or fields.
#[derive(Debug, PartialEq, Eq, Structural, Clone, Copy)]
pub enum Step {
    Table,
    Params,
    Functions,
    Arguments,
}

/// The analyzer's state.
pub struct SemM {
    pub table: Seq<TableM>,
    pub errors: Seq<ErrM>,
    pub set_value: bool,
    pub set_return_value: bool,
    pub defining_fn: bool,
    pub defining_parameters: bool,
    pub max_nesting: usize,
    pub ptr_type: Option<PointerType>,
    pub acces_var: bool,
    pub struct_instance_name: Option<Seq<char>>,
    pub current_struct_init: Option<Seq<char>>,
}

// ---------------------------------------------------------------------------
// Paths into the nested tables.

pub open spec fn params_or_empty(o: Option<Seq<TableM>>) -> Seq<TableM> {
    match o {
        Some(p) => p,
        None => seq![],
    }
}

/// The table one `step` below an entry, where the entry has one there.
pub open spec fn child_of(e: TableM, step: Step) -> Option<Seq<TableM>> {
    match (e, step) {
        (TableM::Function(f), Step::Table) => Some(f.table),
        (TableM::Function(f), Step::Params) => Some(params_or_empty(f.parameters)),
        (TableM::Conditional(c), Step::Table) => Some(c.table),
        (TableM::Loop(l), Step::Table) => Some(l.table),
        (TableM::StructLiteral(s), Step::Functions) => Some(s.functions),
        (TableM::StructLiteral(s), Step::Arguments) => Some(s.arguments),
        _ => None,
    }
}

/// The entry with the table one `step` below it replaced (a function's
/// parameters become present).
pub open spec fn with_child(e: TableM, step: Step, t: Seq<TableM>) -> TableM {
    match (e, step) {
        (TableM::Function(f), Step::Table) => TableM::Function(FuncM { table: t, ..f }),
        (TableM::Function(f), Step::Params) => TableM::Function(FuncM { parameters: Some(t), ..f }),
        (TableM::Conditional(c), Step::Table) => TableM::Conditional(BranchM { table: t, ..c }),
        (TableM::Loop(l), Step::Table) => TableM::Loop(BranchM { table: t, ..l }),
        (TableM::StructLiteral(s), Step::Functions) => TableM::StructLiteral(StructM { functions: t, ..s }),
        (TableM::StructLiteral(s), Step::Arguments) => TableM::StructLiteral(StructM { arguments: t, ..s }),
        _ => e,
    }
}

/// The table at the end of a path that starts at `t`.
pub open spec fn at_path(t: Seq<TableM>, p: Seq<Step>) -> Seq<TableM>
    decreases p.len(),
{
    if p.len() == 0 {
        t
    } else if t.len() == 0 {
        seq![]
    } else {
        match child_of(t.last(), p[0]) {
            Some(c) => at_path(c, p.drop_first()),
            None => seq![],
        }
    }
}

/// `t` with the table at the end of the path replaced by `x`.
pub open spec fn set_path(t: Seq<TableM>, p: Seq<Step>, x: Seq<TableM>) -> Seq<TableM>
    decreases p.len(),
{
    if p.len() == 0 {
        x
    } else if t.len() == 0 {
        t
    } else {
        match child_of(t.last(), p[0]) {
            Some(c) => t.update(t.len() - 1, with_child(t.last(), p[0], set_path(c, p.drop_first(), x))),
            None => t,
        }
    }
}

pub proof fn lemma_set_set(t: Seq<TableM>, p: Seq<Step>, a: Seq<TableM>, b: Seq<TableM>)
    ensures
        set_path(set_path(t, p, a), p, b) == set_path(t, p, b),
    decreases p.len(),
{
    if p.len() > 0 && t.len() > 0 {
        match child_of(t.last(), p[0]) {
            Some(c) => {
                lemma_set_set(c, p.drop_first(), a, b);
                let t1 = set_path(t, p, a);
                assert(t1.last() == with_child(t.last(), p[0], set_path(c, p.drop_first(), a)));
                assert(child_of(t1.last(), p[0]) == Some(set_path(c, p.drop_first(), a)));
                assert(set_path(t1, p, b) =~= set_path(t, p, b));
            },
            None => {},
        }
    }
}

/// The call an entry ends with and still takes arguments for: the last
/// value of a variable or of a return's value, or the last parameter of an
/// assignment.
pub open spec fn pending_in(e: TableM) -> Option<CallM> {
    match e {
        TableM::Variable(v) => var_pending_call(v),
        TableM::Reasingment(r) => match r.parameters {
            Some(p) => if p.len() > 0 && p.last() is FunctionCall {
                Some(p.last()->FunctionCall_0)
            } else {
                None
            },
            None => None,
        },
        TableM::Return(r) => match r.value {
            Some(v) => var_pending_call(v),
            None => None,
        },
        _ => None,
    }
}

pub open spec fn has_child(e: TableM) -> bool {
    e is Function || e is Conditional || e is Loop || e is StructLiteral
}

/// The step into the entry that a table ends with, when descending to the active table.
pub open spec fn child_step(e: TableM, dp: bool, dfn: bool) -> Step {
    match e {
        TableM::Function(f) => if dp && f.table.len() == 0 {
            Step::Params
        } else {
            Step::Table
        },
        TableM::StructLiteral(_) => if dfn {
            Step::Functions
        } else {
            Step::Arguments
        },
        _ => Step::Table,
    }
}

/// The path to the active table below `t`, which is at nesting level
/// `level`: stop at an entry with a pending call, at an entry without a
/// body, at the deepest level allowed (unless parameters are being read,
/// where only conditionals and loops stop it), and at a function's
/// parameters while they are being read and its body is empty.
pub open spec fn active_path(t: Seq<TableM>, dp: bool, dfn: bool, level: nat, max: nat) -> Seq<Step>
    decreases t,
{
    if t.len() == 0 {
        seq![]
    } else {
        let e = t.last();
        if pending_in(e) is Some || !has_child(e) || (level == max && !dp) {
            seq![]
        } else if dp && max == level && (e is Conditional || e is Loop) {
            seq![]
        } else {
            let step = child_step(e, dp, dfn);
            match e {
                TableM::Function(f) => if step == Step::Params {
                    seq![Step::Params]
                } else {
                    seq![Step::Table] + active_path(f.table, dp, dfn, level + 1, max)
                },
                TableM::Conditional(c) => seq![Step::Table] + active_path(c.table, dp, dfn, level + 1, max),
                TableM::Loop(l) => seq![Step::Table] + active_path(l.table, dp, dfn, level + 1, max),
                TableM::StructLiteral(s) => if dfn {
                    seq![Step::Functions] + active_path(s.functions, dp, dfn, level + 1, max)
                } else {
                    seq![Step::Arguments] + active_path(s.arguments, dp, dfn, level + 1, max)
                },
                _ => seq![],
            }
        }
    }
}

pub open spec fn active(s: SemM) -> Seq<Step> {
    active_path(s.table, s.defining_parameters, s.defining_fn, 1, s.max_nesting as nat)
}

/// The active table.
pub open spec fn act(s: SemM) -> Seq<TableM> {
    at_path(s.table, active(s))
}

/// The state with the active table replaced.
pub open spec fn set_act(s: SemM, t: Seq<TableM>) -> SemM {
    SemM { table: set_path(s.table, active(s), t), ..s }
}

/// The state after the active table is looked at (which makes the
/// parameter list present when it is the active table).
pub open spec fn touch(s: SemM) -> SemM {
    set_act(s, act(s))
}

/// The active table's last entry.
pub open spec fn act_last(s: SemM) -> Option<TableM> {
    if act(s).len() > 0 {
        Some(act(s).last())
    } else {
        None
    }
}

/// The active table with its last entry replaced.
pub open spec fn set_act_last(s: SemM, e: TableM) -> SemM {
    set_act(s, act(s).update(act(s).len() - 1, e))
}

// ---------------------------------------------------------------------------
// Walking the nested tables.

fn has_pending_call(e: &TableTypes) -> (r: bool)
    ensures
        r == pending_in(e@) is Some,
{
    match e {
        TableTypes::Variable(v) => v.pending_call().is_some(),
        TableTypes::Reasingment(re) => match &re.parameters {
            Some(p) => {
                if p.len() == 0 {
                    assert(tables_view(p@).len() == 0);
                    return false;
                }
                proof {
                    lemma_tables_drop_last(p@);
                }
                matches!(&p[p.len() - 1], TableTypes::FunctionCall(_))
            },
            None => false,
        },
        TableTypes::Return(r) => match &r.value {
            Some(v) => v.pending_call().is_some(),
            None => false,
        },
        _ => false,
    }
}

/// The next level's distance to the deepest level: `rem` is `max - level`
/// while `level <= max`, and nothing below it.
fn next_rem(rem: Option<usize>) -> (r: Option<usize>)
    ensures
        match rem {
            Some(k) => if k > 0 { r == Some((k - 1) as usize) } else { r is None },
            None => r is None,
        },
{
    match rem {
        Some(k) => if k > 0 { Some(k - 1) } else { None },
        None => None,
    }
}

fn active_path_of(t: &Vec<TableTypes>, dp: bool, dfn: bool, rem: Option<usize>, Ghost(level): Ghost<nat>, Ghost(max): Ghost<nat>) -> (r: Vec<Step>)
    requires
        rem matches Some(k) ==> level + k == max,
        rem is None ==> level > max,
    ensures
        r@ == active_path(tables_view(t@), dp, dfn, level, max),
    decreases t,
{
    let ghost tv = tables_view(t@);
    if t.len() == 0 {
        return Vec::new();
    }
    let n = t.len();
    proof {
        lemma_tables_drop_last(t@);
        vstd::std_specs::vec::axiom_vec_index_decreases(*t, n - 1);
    }
    let e = &t[n - 1];
    let at_max = rem == Some(0usize);
    assert(at_max == (level == max));
    if has_pending_call(e) {
        return Vec::new();
    }
    let mut out: Vec<Step> = Vec::new();
    match e {
        TableTypes::Function(f) => {
            if at_max && !dp {
                return Vec::new();
            }
            if dp && f.table.len() == 0 {
                out.push(Step::Params);
                assert(out@ =~= seq![Step::Params]);
                return out;
            }
            out.push(Step::Table);
            let mut rest = active_path_of(&f.table, dp, dfn, next_rem(rem), Ghost(level + 1), Ghost(max));
            out.append(&mut rest);
        },
        TableTypes::Conditional(c) => {
            if (at_max && !dp) || (dp && at_max) {
                return Vec::new();
            }
            out.push(Step::Table);
            let mut rest = active_path_of(&c.table, dp, dfn, next_rem(rem), Ghost(level + 1), Ghost(max));
            out.append(&mut rest);
        },
        TableTypes::Loop(l) => {
            if (at_max && !dp) || (dp && at_max) {
                return Vec::new();
            }
            out.push(Step::Table);
            let mut rest = active_path_of(&l.table, dp, dfn, next_rem(rem), Ghost(level + 1), Ghost(max));
            out.append(&mut rest);
        },
        TableTypes::StructLiteral(st) => {
            if at_max && !dp {
                return Vec::new();
            }
            if dfn {
                out.push(Step::Functions);
                let mut rest = active_path_of(&st.functions, dp, dfn, next_rem(rem), Ghost(level + 1), Ghost(max));
                out.append(&mut rest);
            } else {
                out.push(Step::Arguments);
                let mut rest = active_path_of(&st.arguments, dp, dfn, next_rem(rem), Ghost(level + 1), Ghost(max));
                out.append(&mut rest);
            }
        },
        _ => {
            return Vec::new();
        },
    }
    out
}

/// Takes the table at the end of the path starting at index `k`, leaving an empty one.
fn take_at(t: &mut Vec<TableTypes>, path: &Vec<Step>, k: usize) -> (r: Vec<TableTypes>)
    requires
        k <= path@.len(),
    ensures
        tables_view(r@) == at_path(tables_view(old(t)@), path@.skip(k as int)),
        tables_view(final(t)@) == set_path(tables_view(old(t)@), path@.skip(k as int), seq![]),
    decreases path@.len() - k,
{
    let ghost t0 = t@;
    let ghost p = path@.skip(k as int);
    proof {
        crate::variable_types::lemma_tables_empty();
    }
    if k == path.len() {
        let mut r: Vec<TableTypes> = Vec::new();
        std::mem::swap(&mut r, t);
        assert(p =~= seq![]);
        return r;
    }
    if t.len() == 0 {
        assert(tables_view(t@) =~= seq![]);
        return Vec::new();
    }
    assert(p.drop_first() =~= path@.skip(k + 1));
    assert(p[0] == path@[k as int]);
    proof {
        lemma_tables_drop_last(t0);
    }
    let e = t.pop().unwrap();
    let step = path[k];
    let r: Vec<TableTypes>;
    match e {
        TableTypes::Function(mut f) => {
            if step == Step::Table {
                r = take_at(&mut f.table, path, k + 1);
            } else if step == Step::Params {
                let mut ps = match f.parameters.take() {
                    Some(v) => v,
                    None => Vec::new(),
                };
                r = take_at(&mut ps, path, k + 1);
                f.parameters = Some(ps);
            } else {
                r = Vec::new();
            }
            t.push(TableTypes::Function(f));
        },
        TableTypes::Conditional(mut c) => {
            if step == Step::Table {
                r = take_at(&mut c.table, path, k + 1);
            } else {
                r = Vec::new();
            }
            t.push(TableTypes::Conditional(c));
        },
        TableTypes::Loop(mut l) => {
            if step == Step::Table {
                r = take_at(&mut l.table, path, k + 1);
            } else {
                r = Vec::new();
            }
            t.push(TableTypes::Loop(l));
        },
        TableTypes::StructLiteral(mut st) => {
            if step == Step::Functions {
                r = take_at(&mut st.functions, path, k + 1);
            } else if step == Step::Arguments {
                r = take_at(&mut st.arguments, path, k + 1);
            } else {
                r = Vec::new();
            }
            t.push(TableTypes::StructLiteral(st));
        },
        other => {
            r = Vec::new();
            t.push(other);
        },
    }
    proof {
        lemma_tables_push(t0.drop_last(), t@.last());
        assert(t@ =~= t0.drop_last().push(t@.last()));
    }
    assert(tables_view(t@) =~= set_path(tables_view(t0), p, seq![]));
    r
}

/// Puts `x` as the table at the end of the path starting at index `k`.
fn put_at(t: &mut Vec<TableTypes>, path: &Vec<Step>, k: usize, x: Vec<TableTypes>)
    requires
        k <= path@.len(),
    ensures
        tables_view(final(t)@) == set_path(tables_view(old(t)@), path@.skip(k as int), tables_view(x@)),
    decreases path@.len() - k,
{
    let ghost t0 = t@;
    let ghost p = path@.skip(k as int);
    if k == path.len() {
        *t = x;
        assert(p =~= seq![]);
        return;
    }
    if t.len() == 0 {
        return;
    }
    assert(p.drop_first() =~= path@.skip(k + 1));
    assert(p[0] == path@[k as int]);
    proof {
        lemma_tables_drop_last(t0);
    }
    let e = t.pop().unwrap();
    let step = path[k];
    match e {
        TableTypes::Function(mut f) => {
            if step == Step::Table {
                put_at(&mut f.table, path, k + 1, x);
            } else if step == Step::Params {
                let mut ps = match f.parameters.take() {
                    Some(v) => v,
                    None => Vec::new(),
                };
                proof {
                    crate::variable_types::lemma_tables_empty();
                }
                put_at(&mut ps, path, k + 1, x);
                f.parameters = Some(ps);
            }
            t.push(TableTypes::Function(f));
        },
        TableTypes::Conditional(mut c) => {
            if step == Step::Table {
                put_at(&mut c.table, path, k + 1, x);
            }
            t.push(TableTypes::Conditional(c));
        },
        TableTypes::Loop(mut l) => {
            if step == Step::Table {
                put_at(&mut l.table, path, k + 1, x);
            }
            t.push(TableTypes::Loop(l));
        },
        TableTypes::StructLiteral(mut st) => {
            if step == Step::Functions {
                put_at(&mut st.functions, path, k + 1, x);
            } else if step == Step::Arguments {
                put_at(&mut st.arguments, path, k + 1, x);
            }
            t.push(TableTypes::StructLiteral(st));
        },
        other => {
            t.push(other);
        },
    }
    proof {
        lemma_tables_push(t0.drop_last(), t@.last());
        assert(t@ =~= t0.drop_last().push(t@.last()));
    }
    assert(tables_view(t@) =~= set_path(tables_view(t0), p, tables_view(x@)));
}

// ---------------------------------------------------------------------------
// Name resolution, over models.

/// The index of the first built-in function named `name`, from index `i` on.
pub open spec fn builtin_from(name: Seq<char>, i: nat) -> Option<nat>
    decreases builtin_count() - i,
{
    if i >= builtin_count() {
        None
    } else if builtin_name(i as int) == name {
        Some(i)
    } else {
        builtin_from(name, i + 1)
    }
}

pub open spec fn scope_for_level(level: nat) -> Scope {
    if level == 0 {
        Scope::Root
    } else {
        Scope::Function
    }
}

/// Looking for `name` in one table from entry `i` on: a variable, function or
/// struct of that name; a built-in function of that name is found at the
/// first entry that is not one of these.
pub open spec fn find_from(name: Seq<char>, t: Seq<TableM>, i: nat, level: nat) -> Option<(usize, Scope, ResolveType)>
    decreases t.len() - i,
{
    if i >= t.len() {
        None
    } else {
        let e = t[i as int];
        if e matches TableM::Variable(v) && v.name == Some(name) {
            Some((i as usize, scope_for_level(level), ResolveType::Variable))
        } else if e matches TableM::Function(f) && f.name == Some(name) {
            Some((i as usize, scope_for_level(level), ResolveType::Function))
        } else if e matches TableM::StructLiteral(st) && st.name == name {
            Some((i as usize, scope_for_level(level), ResolveType::Struct))
        } else if builtin_from(name, 0) is Some {
            Some((builtin_from(name, 0)->0 as usize, Scope::EnbedFunc, ResolveType::Function))
        } else {
            find_from(name, t, i + 1, level)
        }
    }
}

/// Whether resolution goes on into the body of the entry a table ends with.
pub open spec fn should_descend(t: Seq<TableM>, level: nat, max: nat, dp: bool) -> bool {
    &&& t.len() > 0
    &&& has_child(t.last())
    &&& !(level + 1 > max && !dp)
    &&& !(dp && (t.last() is Conditional || t.last() is Loop))
}

/// Resolution of `name` in the chain of tables that ends at the innermost
/// open body: the deepest match wins; a function whose body is still empty
/// while its parameters are read is not entered.
pub open spec fn resolve_in_chain(name: Seq<char>, t: Seq<TableM>, level: nat, max: nat, dp: bool) -> Option<(usize, Scope, ResolveType)>
    decreases t,
{
    let inner = if should_descend(t, level, max, dp) {
        match t.last() {
            TableM::Function(f) => if dp && f.table.len() == 0 {
                None
            } else {
                resolve_in_chain(name, f.table, level + 1, max, dp)
            },
            TableM::Conditional(c) => resolve_in_chain(name, c.table, level + 1, max, dp),
            TableM::Loop(l) => resolve_in_chain(name, l.table, level + 1, max, dp),
            TableM::StructLiteral(st) => resolve_in_chain(name, st.functions, level + 1, max, dp),
            _ => None,
        }
    } else {
        None
    };
    match inner {
        Some(r) => Some(r),
        None => find_from(name, t, 0, level),
    }
}

pub open spec fn param_from(name: Seq<char>, ps: Seq<TableM>, i: nat) -> Option<(usize, Scope, ResolveType)>
    decreases ps.len() - i,
{
    if i >= ps.len() {
        None
    } else if ps[i as int] matches TableM::Variable(v) && v.name == Some(name) {
        Some((i as usize, Scope::Parameter, ResolveType::Variable))
    } else {
        param_from(name, ps, i + 1)
    }
}

/// A parameter of the last root function named `name`, while a function is being defined.
pub open spec fn resolve_in_parameters(s: SemM, name: Seq<char>) -> Option<(usize, Scope, ResolveType)> {
    if !s.defining_fn || s.table.len() == 0 {
        None
    } else {
        match s.table.last() {
            TableM::Function(f) => match f.parameters {
                Some(ps) => param_from(name, ps, 0),
                None => None,
            },
            _ => None,
        }
    }
}

pub open spec fn resolve_name(s: SemM, name: Seq<char>) -> Option<(usize, Scope, ResolveType)> {
    match resolve_in_chain(name, s.table, 0, s.max_nesting as nat, s.defining_parameters) {
        Some(r) => Some(r),
        None => resolve_in_parameters(s, name),
    }
}

/// What a word refers to: the array name of `name[index]`, or the struct
/// instance before `::`.
pub open spec fn resolve(s: SemM, name: Seq<char>) -> Option<(usize, Scope, ResolveType)> {
    let lookup = match array_split(name) {
        Some((n, _)) => n,
        None => name,
    };
    if s.acces_var {
        match s.struct_instance_name {
            Some(inst) => resolve_name(s, inst),
            None => None,
        }
    } else {
        resolve_name(s, lookup)
    }
}

// ---------------------------------------------------------------------------
// Name resolution.

fn builtin_index(name: &[char]) -> (r: Option<usize>)
    ensures
        match builtin_from(name@, 0) {
            Some(i) => r == Some(i as usize),
            None => r is None,
        },
{
    let funcs = functions();
    let mut i: usize = 0;
    while i < funcs.len()
        invariant
            i <= funcs@.len(),
            funcs@.len() == builtin_count(),
            forall|k: int| 0 <= k < funcs@.len() ==> #[trigger] funcs@[k].name@ == builtin_name(k),
            builtin_from(name@, 0) == builtin_from(name@, i as nat),
        decreases funcs@.len() - i,
    {
        let fname = chars_of(funcs[i].name);
        if chars_eq(fname.as_slice(), name) {
            return Some(i);
        }
        i = i + 1;
    }
    None
}

fn opt_chars_eq(o: &Option<String>, name: &[char]) -> (r: bool)
    ensures
        r == (crate::variable_types::opt_string_view(*o) == Some(name@)),
{
    match o {
        Some(s) => {
            let c = chars_of(s.as_str());
            chars_eq(c.as_slice(), name)
        },
        None => false,
    }
}

fn scope_for(is_root: bool) -> (r: Scope)
    ensures
        r == (if is_root { Scope::Root } else { Scope::Function }),
{
    if is_root { Scope::Root } else { Scope::Function }
}

fn find_in_level(name: &[char], t: &Vec<TableTypes>, is_root: bool, Ghost(level): Ghost<nat>) -> (r: Option<(usize, Scope, ResolveType)>)
    requires
        is_root == (level == 0),
    ensures
        r == find_from(name@, tables_view(t@), 0, level),
{
    let builtin = builtin_index(name);
    let ghost tv = tables_view(t@);
    let mut i: usize = 0;
    while i < t.len()
        invariant
            i <= t@.len(),
            tv == tables_view(t@),
            is_root == (level == 0),
            find_from(name@, tv, 0, level) == find_from(name@, tv, i as nat, level),
            match builtin_from(name@, 0) {
                Some(b) => builtin == Some(b as usize),
                None => builtin is None,
            },
        decreases t@.len() - i,
    {
        assert(tv[i as int] == table_view(t@[i as int]));
        match &t[i] {
            TableTypes::Variable(v) => {
                if opt_chars_eq(&v.name, name) {
                    return Some((i, scope_for(is_root), ResolveType::Variable));
                }
            },
            TableTypes::Function(f) => {
                if opt_chars_eq(&f.name, name) {
                    return Some((i, scope_for(is_root), ResolveType::Function));
                }
            },
            TableTypes::StructLiteral(st) => {
                let c = chars_of(st.name.as_str());
                if chars_eq(c.as_slice(), name) {
                    return Some((i, scope_for(is_root), ResolveType::Struct));
                }
            },
            _ => {},
        }
        match builtin {
            Some(b) => {
                return Some((b, Scope::EnbedFunc, ResolveType::Function));
            },
            None => {},
        }
        i = i + 1;
    }
    None
}

fn resolve_in_chain_of(
    name: &[char],
    t: &Vec<TableTypes>,
    is_root: bool,
    rem: Option<usize>,
    dp: bool,
    Ghost(level): Ghost<nat>,
    Ghost(max): Ghost<nat>,
) -> (r: Option<(usize, Scope, ResolveType)>)
    requires
        is_root == (level == 0),
        rem matches Some(k) ==> level + k == max,
        rem is None ==> level > max,
    ensures
        r == resolve_in_chain(name@, tables_view(t@), level, max, dp),
    decreases t,
{
    let ghost tv = tables_view(t@);
    let n = t.len();
    let exhausted = match rem {
        Some(k) => k == 0,
        None => true,
    };
    assert(exhausted == (level + 1 > max));
    if n > 0 {
        proof {
            lemma_tables_drop_last(t@);
            vstd::std_specs::vec::axiom_vec_index_decreases(*t, n - 1);
        }
        let e = &t[n - 1];
        let descend = match e {
            TableTypes::Function(_) | TableTypes::StructLiteral(_) => !(exhausted && !dp),
            TableTypes::Conditional(_) | TableTypes::Loop(_) => !(exhausted && !dp) && !dp,
            _ => false,
        };
        assert(descend == should_descend(tv, level, max, dp));
        if descend {
            let inner = match e {
                TableTypes::Function(f) => {
                    if dp && f.table.len() == 0 {
                        None
                    } else {
                        resolve_in_chain_of(name, &f.table, false, next_rem(rem), dp, Ghost(level + 1), Ghost(max))
                    }
                },
                TableTypes::Conditional(c) => resolve_in_chain_of(name, &c.table, false, next_rem(rem), dp, Ghost(level + 1), Ghost(max)),
                TableTypes::Loop(l) => resolve_in_chain_of(name, &l.table, false, next_rem(rem), dp, Ghost(level + 1), Ghost(max)),
                TableTypes::StructLiteral(st) => resolve_in_chain_of(name, &st.functions, false, next_rem(rem), dp, Ghost(level + 1), Ghost(max)),
                _ => None,
            };
            if inner.is_some() {
                return inner;
            }
        }
    }
    find_in_level(name, t, is_root, Ghost(level))
}

fn param_in(name: &[char], ps: &Vec<TableTypes>) -> (r: Option<(usize, Scope, ResolveType)>)
    ensures
        r == param_from(name@, tables_view(ps@), 0),
{
    let ghost tv = tables_view(ps@);
    let mut i: usize = 0;
    while i < ps.len()
        invariant
            i <= ps@.len(),
            tv == tables_view(ps@),
            param_from(name@, tv, 0) == param_from(name@, tv, i as nat),
        decreases ps@.len() - i,
    {
        assert(tv[i as int] == table_view(ps@[i as int]));
        match &ps[i] {
            TableTypes::Variable(v) => {
                if opt_chars_eq(&v.name, name) {
                    return Some((i, Scope::Parameter, ResolveType::Variable));
                }
            },
            _ => {},
        }
        i = i + 1;
    }
    None
}

// ---------------------------------------------------------------------------
// The analyzer.

/// Builds the symbol table from the parsed blocks.
pub struct SemanticAnalyzer {
    table: Vec<TableTypes>,
    error_messages: Vec<Error>,
    set_value: bool,
    set_return_value: bool,
    defining_fn: bool,
    defining_parameters: bool,
    max_nesting: usize,
    ptr_type: Option<PointerType>,
    acces_var: bool,
    struct_instance_name: Option<String>,
    current_struct_init: Option<String>,
}

impl View for SemanticAnalyzer {
    type V = SemM;

    closed spec fn view(&self) -> SemM {
        SemM {
            table: tables_view(self.table@),
            errors: errors_view(self.error_messages@),
            set_value: self.set_value,
            set_return_value: self.set_return_value,
            defining_fn: self.defining_fn,
            defining_parameters: self.defining_parameters,
            max_nesting: self.max_nesting,
            ptr_type: self.ptr_type,
            acces_var: self.acces_var,
            struct_instance_name: crate::variable_types::opt_string_view(self.struct_instance_name),
            current_struct_init: crate::variable_types::opt_string_view(self.current_struct_init),
        }
    }
}

pub open spec fn sem_start() -> SemM {
    SemM {
        table: seq![],
        errors: seq![],
        set_value: false,
        set_return_value: false,
        defining_fn: false,
        defining_parameters: false,
        max_nesting: 1,
        ptr_type: None,
        acces_var: false,
        struct_instance_name: None,
        current_struct_init: None,
    }
}

/// `max - 1` as the distance from level 1 to the deepest level.
fn rem_from_one(max: usize) -> (r: Option<usize>)
    ensures
        r matches Some(k) ==> 1 + k == max,
        r is None ==> 1 > max,
{
    if max >= 1 { Some(max - 1) } else { None }
}

/// `max` as the distance from level 0 to the deepest level.
fn rem_from_zero(max: usize) -> (r: Option<usize>)
    ensures
        r matches Some(k) ==> k == max,
        r is None ==> false,
{
    Some(max)
}

impl SemanticAnalyzer {
    /// An analyzer with an empty table and no errors.
    pub fn new() -> (r: Self)
        ensures
            r@ == sem_start(),
    {
        let r = SemanticAnalyzer {
            table: Vec::new(),
            error_messages: Vec::new(),
            set_value: false,
            set_return_value: false,
            defining_fn: false,
            defining_parameters: false,
            max_nesting: 1,
            ptr_type: None,
            acces_var: false,
            struct_instance_name: None,
            current_struct_init: None,
        };
        proof {
            crate::variable_types::lemma_tables_empty();
        }
        assert(errors_view(r.error_messages@) =~= seq![]);
        r
    }

    /// Takes the active table out, leaving an empty one; gives its path too.
    fn take_active(&mut self) -> (r: (Vec<Step>, Vec<TableTypes>))
        ensures
            r.0@ == active(old(self)@),
            tables_view(r.1@) == act(old(self)@),
            final(self)@ == (SemM { table: set_path(old(self)@.table, active(old(self)@), seq![]), ..old(self)@ }),
    {
        let path = active_path_of(&self.table, self.defining_parameters, self.defining_fn, rem_from_one(self.max_nesting),
            Ghost(1), Ghost(self.max_nesting as nat));
        let t = take_at(&mut self.table, &path, 0);
        assert(path@.skip(0) =~= path@);
        (path, t)
    }

    /// Puts back the active table taken from `before`, as `t`.
    fn put_active(&mut self, path: Vec<Step>, t: Vec<TableTypes>, Ghost(before): Ghost<SemM>)
        requires
            path@ == active(before),
            old(self)@ == (SemM { table: set_path(before.table, active(before), seq![]), ..before }),
        ensures
            final(self)@ == set_act(before, tables_view(t@)),
    {
        put_at(&mut self.table, &path, 0, t);
        assert(path@.skip(0) =~= path@);
        proof {
            lemma_set_set(before.table, path@, seq![], tables_view(t@));
        }
    }

    fn resolve_in_parameters(&self, name: &[char]) -> (r: Option<(usize, Scope, ResolveType)>)
        ensures
            r == resolve_in_parameters(self@, name@),
    {
        if !self.defining_fn || self.table.len() == 0 {
            return None;
        }
        proof {
            lemma_tables_drop_last(self.table@);
        }
        match &self.table[self.table.len() - 1] {
            TableTypes::Function(f) => match &f.parameters {
                Some(ps) => param_in(name, ps),
                None => None,
            },
            _ => None,
        }
    }

    fn resolve_name(&self, name: &[char]) -> (r: Option<(usize, Scope, ResolveType)>)
        ensures
            r == resolve_name(self@, name@),
    {
        match resolve_in_chain_of(name, &self.table, true, rem_from_zero(self.max_nesting), self.defining_parameters,
            Ghost(0), Ghost(self.max_nesting as nat)) {
            Some(r) => Some(r),
            None => self.resolve_in_parameters(name),
        }
    }

    fn resolve(&self, name: &[char]) -> (r: Option<(usize, Scope, ResolveType)>)
        ensures
            r == resolve(self@, name@),
    {
        if self.acces_var {
            match &self.struct_instance_name {
                Some(inst) => {
                    let c = chars_of(inst.as_str());
                    self.resolve_name(c.as_slice())
                },
                None => None,
            }
        } else {
            match crate::variable_types::array_split_chars(name) {
                Some((n, _)) => self.resolve_name(n.as_slice()),
                None => self.resolve_name(name),
            }
        }
    }
}

// ---------------------------------------------------------------------------
// Reading words, over models.

pub open spec fn word_err(w: WordM, msg: Seq<char>) -> ErrM {
    ErrM {
        msg,
        line: match w.line {
            Some(l) => l,
            None => 0,
        },
        ch: match w.char_num {
            Some(c) => c,
            None => 0,
        },
    }
}

pub open spec fn push_err(s: SemM, e: ErrM) -> SemM {
    SemM { errors: s.errors.push(e), ..s }
}

pub open spec fn msg_too_many(expected: nat, found: nat) -> Seq<char> {
    "Too many arguments for function call. Expected: "@ + decimal(expected) + ", Found: "@ + decimal(found)
}

pub open spec fn msg_undefined(w: Seq<char>) -> Seq<char> {
    "Undefined symbol: "@ + w
}

pub open spec fn msg_no_last() -> Seq<char> {
    "There wasn't a last entry"@
}

pub open spec fn ptr_prefix(p: Option<PointerType>) -> Seq<char> {
    match p {
        Some(PointerType::Pointer) => "*"@,
        Some(PointerType::Reference) => "&"@,
        None => ""@,
    }
}

pub open spec fn msg_mismatch(p: Option<PointerType>, expected: TokenType, found: TokenType) -> Seq<char> {
    "Type mismatch. Expected: "@ + ptr_prefix(p) + token_text(expected) + ", Found: "@ + token_text(found)
}

pub open spec fn msg_arg_mismatch(n: nat, expected: TokenType, actual: TokenType) -> Seq<char> {
    "Type mismatch for argument "@ + decimal(n) + " of function call: expected "@ + crate::token::token_debug(expected)
        + ", got "@ + crate::token::token_debug(actual)
}

pub open spec fn expected_ptr_text(p: Option<PointerType>) -> Seq<char> {
    match p {
        Some(PointerType::Pointer) => "pointer (*T) — pass with &var"@,
        Some(PointerType::Reference) => "reference (&T)"@,
        None => "plain value"@,
    }
}

pub open spec fn actual_ptr_text(p: Option<PointerType>) -> Seq<char> {
    match p {
        Some(PointerType::Pointer) => "dereference (*var)"@,
        Some(PointerType::Reference) => "address-of (&var)"@,
        None => "plain value"@,
    }
}

pub open spec fn msg_ptr_mismatch(n: nat, expected: Option<PointerType>, actual: Option<PointerType>) -> Seq<char> {
    "Pointer kind mismatch for argument "@ + decimal(n) + " of function call: expected "@ + expected_ptr_text(expected)
        + ", got "@ + actual_ptr_text(actual)
}

pub open spec fn msg_return_mismatch(expected: TokenType, word: Seq<char>, ret: TokenType) -> Seq<char> {
    "Type mismatch: variable is '"@ + token_text(expected) + "' but function '"@ + word + "' returns '"@
        + token_text(ret) + "'"@
}

/// The name of a struct member: `instance__field`.
pub open spec fn mangle(inst: Seq<char>, field: Seq<char>) -> Seq<char> {
    inst + "__"@ + field
}

pub open spec fn with_ptr(e: TableM, p: Option<PointerType>) -> TableM {
    match e {
        TableM::Variable(v) => TableM::Variable(VarM { ptr: p, ..v }),
        TableM::Reasingment(r) => TableM::Reasingment(ReasM { ptr: p, ..r }),
        _ => e,
    }
}

/// A new entry started by `token` in the active table; `fn` starts a function definition.
#[verifier::opaque]
pub open spec fn add_entry(s: SemM, token: TokenType) -> SemM {
    let e = with_ptr(table_new(token), s.ptr_type);
    let s1 = SemM { defining_fn: s.defining_fn || token is FnLiteral, ..s };
    set_act(s1, act(s1).push(e))
}

/// The table `find_preceding_instance_name` looks at: as the active table,
/// but not stopping at pending calls, and not making parameters present.
pub open spec fn ref_table(t: Seq<TableM>, dp: bool, dfn: bool, level: nat, max: nat) -> Seq<TableM>
    decreases t,
{
    if t.len() == 0 {
        t
    } else {
        let e = t.last();
        if !has_child(e) || (level == max && !dp) {
            t
        } else if dp && max == level && (e is Conditional || e is Loop) {
            t
        } else {
            match e {
                TableM::Function(f) => if dp && f.table.len() == 0 {
                    match f.parameters {
                        Some(p) => p,
                        None => t,
                    }
                } else {
                    ref_table(f.table, dp, dfn, level + 1, max)
                },
                TableM::Conditional(c) => ref_table(c.table, dp, dfn, level + 1, max),
                TableM::Loop(l) => ref_table(l.table, dp, dfn, level + 1, max),
                TableM::StructLiteral(st) => if dfn {
                    ref_table(st.functions, dp, dfn, level + 1, max)
                } else {
                    ref_table(st.arguments, dp, dfn, level + 1, max)
                },
                _ => t,
            }
        }
    }
}

/// The name of the instance a `::` follows.
#[verifier::opaque]
pub open spec fn preceding_name(s: SemM) -> Option<Seq<char>> {
    let a = ref_table(s.table, s.defining_parameters, s.defining_fn, 1, s.max_nesting as nat);
    if a.len() == 0 {
        None
    } else {
        match a.last() {
            TableM::FunctionCall(fc) => match fc.parameters {
                Some(p) => if p.len() > 0 {
                    match p.last() {
                        TableM::Reasingment(r) => Some(r.name),
                        TableM::Variable(v) => v.name,
                        _ => None,
                    }
                } else {
                    None
                },
                None => None,
            },
            TableM::Reasingment(r) => match r.parameters {
                Some(p) => if p.len() > 0 {
                    match p.last() {
                        TableM::Reasingment(inner) => Some(inner.name),
                        TableM::Variable(v) => v.name,
                        _ => None,
                    }
                } else {
                    Some(r.name)
                },
                None => Some(r.name),
            },
            TableM::Variable(v) => match v.value {
                Some(vs) => if vs.len() > 0 {
                    match vs.last() {
                        ValueM::Var(n) => Some(n),
                        _ => v.name,
                    }
                } else {
                    v.name
                },
                None => v.name,
            },
            _ => None,
        }
    }
}

/// Entry `idx` of the body of the last root function whose body has that many entries.
pub open spec fn rev_fn_entry(t: Seq<TableM>, j: nat, idx: nat) -> Option<TableM>
    decreases j,
{
    if j == 0 || j > t.len() {
        None
    } else {
        match t[j - 1] {
            TableM::Function(f) => if idx < f.table.len() {
                Some(f.table[idx as int])
            } else {
                rev_fn_entry(t, (j - 1) as nat, idx)
            },
            _ => rev_fn_entry(t, (j - 1) as nat, idx),
        }
    }
}

/// Entry `idx` of the body of the first root function, from `i` on, whose body has that many entries.
pub open spec fn fwd_fn_entry(t: Seq<TableM>, i: nat, idx: nat) -> Option<TableM>
    decreases t.len() - i,
{
    if i >= t.len() {
        None
    } else {
        match t[i as int] {
            TableM::Function(f) => if idx < f.table.len() {
                Some(f.table[idx as int])
            } else {
                fwd_fn_entry(t, i + 1, idx)
            },
            _ => fwd_fn_entry(t, i + 1, idx),
        }
    }
}

/// Parameter `idx` of the first root function, from `i` on, that has that many parameters.
pub open spec fn fwd_param_entry(t: Seq<TableM>, i: nat, idx: nat) -> Option<TableM>
    decreases t.len() - i,
{
    if i >= t.len() {
        None
    } else {
        match t[i as int] {
            TableM::Function(f) => match f.parameters {
                Some(p) => if idx < p.len() {
                    Some(p[idx as int])
                } else {
                    fwd_param_entry(t, i + 1, idx)
                },
                None => fwd_param_entry(t, i + 1, idx),
            },
            _ => fwd_param_entry(t, i + 1, idx),
        }
    }
}

pub open spec fn root_entry(t: Seq<TableM>, idx: nat) -> Option<TableM> {
    if idx < t.len() {
        Some(t[idx as int])
    } else {
        None
    }
}

/// The entry a resolved name refers to, as an assignment or a member access
/// looks it up (function scopes search from the last function back).
pub open spec fn target_entry(t: Seq<TableM>, idx: nat, scope: Scope) -> Option<TableM> {
    match scope {
        Scope::Root => root_entry(t, idx),
        Scope::Function | Scope::Parameter => rev_fn_entry(t, t.len(), idx),
        Scope::EnbedFunc => None,
    }
}

pub open spec fn entry_type(e: Option<TableM>) -> TokenType {
    match e {
        Some(TableM::Variable(v)) => v.token_type,
        _ => TokenType::Unknow,
    }
}

pub open spec fn retarget(r: ReasM, name: Seq<char>, target: usize, scope: Scope, tok: TokenType) -> ReasM {
    ReasM { name, target, target_scope: scope, token_type: tok, ..r }
}

pub open spec fn params_empty(o: Option<Seq<TableM>>) -> bool {
    match o {
        Some(p) => p.len() == 0,
        None => true,
    }
}

/// The last parameter of an optional list, if it is an assignment.
pub open spec fn last_reas(o: Option<Seq<TableM>>) -> Option<ReasM> {
    match o {
        Some(p) => if p.len() > 0 && p.last() is Reasingment {
            Some(p.last()->Reasingment_0)
        } else {
            None
        },
        None => None,
    }
}

pub open spec fn set_last_param(o: Option<Seq<TableM>>, e: TableM) -> Option<Seq<TableM>> {
    match o {
        Some(p) => Some(p.update(p.len() - 1, e)),
        None => None,
    }
}

/// The member access `instance::field` once the field is read: it renames
/// the assignment or argument being written, or the last value, or starts
/// a new assignment to the member.
#[verifier::opaque]
pub open spec fn access_field(s: SemM, w: WordM) -> SemM {
    let inst = match s.struct_instance_name {
        Some(n) => n,
        None => seq![],
    };
    let s0 = SemM { struct_instance_name: None, ..s };
    let mangled = mangle(inst, w.word);
    let (target, scope, tok) = match resolve_name(s0, inst) {
        Some((idx, sc, _)) => (idx, sc, entry_type(target_entry(s0.table, idx as nat, sc))),
        None => (0usize, Scope::Root, TokenType::Unknow),
    };
    access_store(s0, mangled, target, scope, tok)
}

#[verifier::opaque]
pub open spec fn access_store(s: SemM, mangled: Seq<char>, target: usize, scope: Scope, tok: TokenType) -> SemM {
    match act_last(s) {
        Some(TableM::Reasingment(r)) => if params_empty(r.parameters) {
            set_act_last(s, TableM::Reasingment(retarget(r, mangled, target, scope, tok)))
        } else {
            access_in_call(touch(s), mangled, target, scope, tok)
        },
        _ => access_in_call(touch(s), mangled, target, scope, tok),
    }
}

#[verifier::opaque]
pub open spec fn access_in_call(s: SemM, mangled: Seq<char>, target: usize, scope: Scope, tok: TokenType) -> SemM {
    let is_call = act_last(s) matches Some(TableM::FunctionCall(_));
    let s1 = touch(s);
    if is_call && s.defining_parameters {
        match act_last(s1) {
            Some(TableM::FunctionCall(fc)) => match last_reas(fc.parameters) {
                Some(inner) => set_act_last(
                    s1,
                    TableM::FunctionCall(CallM {
                        parameters: set_last_param(fc.parameters, TableM::Reasingment(retarget(inner, mangled, target, scope, tok))),
                        ..fc
                    }),
                ),
                None => access_in_assignment(touch(s1), mangled, target, scope, tok),
            },
            _ => access_in_assignment(touch(s1), mangled, target, scope, tok),
        }
    } else {
        access_in_assignment(s1, mangled, target, scope, tok)
    }
}

#[verifier::opaque]
pub open spec fn access_in_assignment(s: SemM, mangled: Seq<char>, target: usize, scope: Scope, tok: TokenType) -> SemM {
    match act_last(s) {
        Some(TableM::Reasingment(r)) => match last_reas(r.parameters) {
            Some(inner) => set_act_last(
                s,
                TableM::Reasingment(ReasM {
                    parameters: set_last_param(r.parameters, TableM::Reasingment(retarget(inner, mangled, target, scope, tok))),
                    ..r
                }),
            ),
            None => access_in_value(touch(s), mangled, target, scope, tok),
        },
        _ => access_in_value(touch(s), mangled, target, scope, tok),
    }
}

#[verifier::opaque]
pub open spec fn access_in_value(s: SemM, mangled: Seq<char>, target: usize, scope: Scope, tok: TokenType) -> SemM {
    match act_last(s) {
        Some(TableM::Variable(v)) => match v.value {
            Some(vs) => if vs.len() > 0 {
                set_act_last(s, TableM::Variable(VarM { value: Some(vs.update(vs.len() - 1, ValueM::Var(mangled))), ..v }))
            } else {
                access_new(touch(s), mangled, target, scope, tok)
            },
            None => access_new(touch(s), mangled, target, scope, tok),
        },
        _ => access_new(touch(s), mangled, target, scope, tok),
    }
}

#[verifier::opaque]
pub open spec fn access_new(s: SemM, mangled: Seq<char>, target: usize, scope: Scope, tok: TokenType) -> SemM {
    let r = ReasM {
        target,
        target_scope: scope,
        parameters: None,
        name: mangled,
        token_type: tok,
        ptr: s.ptr_type,
        array_index: None,
    };
    SemM { set_value: true, ..set_act(s, act(s).push(TableM::Reasingment(r))) }
}

pub open spec fn len_or_zero(o: Option<Seq<TableM>>) -> nat {
    match o {
        Some(p) => p.len(),
        None => 0,
    }
}

/// The type and pointer kind the called function declares for parameter `n`.
#[verifier::opaque]
pub open spec fn expected_param(t: Seq<TableM>, target: usize, n: nat) -> (Option<TokenType>, Option<PointerType>) {
    match root_entry(t, target as nat) {
        Some(TableM::Function(f)) => match f.parameters {
            Some(ps) => if n < ps.len() {
                match ps[n as int] {
                    TableM::Variable(v) => (Some(v.token_type), v.ptr),
                    _ => (None, None),
                }
            } else {
                (None, None)
            },
            None => (None, None),
        },
        _ => (None, None),
    }
}

/// The declared type of what a name resolved to; nothing inside the outer
/// option where the name is a built-in function (the lookup is not written).
#[verifier::opaque]
pub open spec fn declared_type_of(s: SemM, index: Option<(usize, Scope, ResolveType)>) -> Option<Option<TokenType>> {
    match index {
        None => Some(None),
        Some((idx, scope, _)) => {
            let entry = match scope {
                Scope::Root => root_entry(s.table, idx as nat),
                Scope::Function => fwd_fn_entry(s.table, 0, idx as nat),
                Scope::Parameter => fwd_param_entry(s.table, 0, idx as nat),
                Scope::EnbedFunc => None,
            };
            if scope is EnbedFunc {
                None
            } else {
                Some(
                    match entry {
                        Some(TableM::Variable(v)) => Some(v.token_type),
                        _ => None,
                    },
                )
            }
        },
    }
}

pub open spec fn ptr_ok(expected: Option<PointerType>, actual: Option<PointerType>) -> bool {
    match (expected, actual) {
        (Some(PointerType::Pointer), Some(PointerType::Reference)) => true,
        (None, Some(PointerType::Pointer)) => true,
        (None, None) => true,
        (a, b) => a == b,
    }
}

/// Checking argument number `n + 1` of a call against the called function's parameter.
#[verifier::opaque]
pub open spec fn check_parameters(s: SemM, w: WordM, token: TokenType, index: Option<(usize, Scope, ResolveType)>, n: nat, target: usize) -> Option<SemM> {
    let (et, ep) = expected_param(s.table, target, n);
    match et {
        None => Some(s),
        Some(e) => {
            let actual = match literal_type_of(token) {
                Some(x) => Some(Some(x)),
                None => declared_type_of(s, index),
            };
            match actual {
                None => None,
                Some(a) => {
                    let s1 = match a {
                        Some(at) => if !tok_eq(at, e) {
                            push_err(s, word_err(w, msg_arg_mismatch(n + 1, e, at)))
                        } else {
                            s
                        },
                        None => s,
                    };
                    Some(
                        if !ptr_ok(ep, s.ptr_type) {
                            push_err(s1, word_err(w, msg_ptr_mismatch(n + 1, ep, s.ptr_type)))
                        } else {
                            s1
                        },
                    )
                },
            }
        },
    }
}

/// A literal argument given to a parameter of the type its keyword names
/// (a string literal to a `str` parameter, an integer literal to an `int`
/// one, ...), with pointer kinds that agree, adds no error.
pub proof fn lemma_literal_argument_fits(
    s: SemM,
    w: WordM,
    token: TokenType,
    index: Option<(usize, Scope, ResolveType)>,
    n: nat,
    target: usize,
)
    requires
        literal_keyword(token) is Some,
        expected_param(s.table, target, n).0 == Some(token_of(literal_keyword(token)->0)),
        ptr_ok(expected_param(s.table, target, n).1, s.ptr_type),
    ensures
        check_parameters(s, w, token, index, n, target) == Some(s),
{
    reveal(check_parameters);
    crate::token::lemma_literal_types(token);
    let e = token_of(literal_keyword(token)->0);
    crate::token::lemma_tok_eq(e, e);
}

/// The type mismatch, if any, between a literal word and the variable or
/// assignment it is given to: declared type, the literal's type, and the
/// pointer kind of the word.
#[verifier::opaque]
pub open spec fn mismatch_of(e: TableM, word: Seq<char>, rhs: Option<PointerType>, in_nested: bool) -> Option<(TokenType, TokenType, Option<PointerType>)> {
    let vt = literal_type_of(token_of(word));
    match e {
        TableM::Variable(var) => if !in_nested && var.name is Some && vt is Some {
            let ok = match var.ptr {
                Some(PointerType::Pointer) => rhs == Some(PointerType::Reference),
                _ => true,
            };
            if !tok_eq(vt->0, var.token_type) && !ok {
                Some((var.token_type, vt->0, rhs))
            } else {
                None
            }
        } else {
            None
        },
        TableM::Reasingment(r) => if !in_nested && r.token_type is Unknow && vt is Some {
            let ok = match r.ptr {
                Some(PointerType::Reference) => rhs != Some(PointerType::Pointer),
                None => rhs is None,
                _ => true,
            };
            if !tok_eq(vt->0, r.token_type) && !is_operator_token(r.token_type) && !ok {
                Some((r.token_type, vt->0, rhs))
            } else {
                None
            }
        } else {
            None
        },
        _ => None,
    }
}

pub open spec fn new_call(idx: usize, word: Seq<char>, scope: Scope) -> CallM {
    CallM { target: idx, parameters: None, name: word, scope }
}

/// A call being written gets what its last argument resolved to: a function
/// turns the argument into a call, anything else retargets it.
#[verifier::opaque]
pub open spec fn caller_on_call(fc: CallM, index: Option<(usize, Scope, ResolveType)>, word: Seq<char>) -> CallM {
    match index {
        None => fc,
        Some((idx, scope, rt)) => match last_reas(fc.parameters) {
            Some(v) => if rt == ResolveType::Function {
                CallM { parameters: set_last_param(fc.parameters, TableM::FunctionCall(new_call(idx, word, scope))), ..fc }
            } else {
                CallM {
                    parameters: set_last_param(fc.parameters, TableM::Reasingment(ReasM { target: idx, target_scope: scope, ..v })),
                    ..fc
                }
            },
            None => fc,
        },
    }
}

/// A variable whose value ends with a name that turned out to be a function: the name becomes a call.
pub open spec fn promote(v: VarM, idx: usize, word: Seq<char>, scope: Scope) -> VarM {
    match v.value {
        Some(vs) => if vs.len() > 0 && vs.last() is Var {
            VarM { value: Some(vs.update(vs.len() - 1, ValueM::FuncCall(new_call(idx, word, scope)))), ..v }
        } else {
            v
        },
        None => v,
    }
}

/// The entry after its last word resolved, and the function and declared
/// type whose return type is to be checked.
#[verifier::opaque]
pub open spec fn add_caller_info(e: TableM, index: Option<(usize, Scope, ResolveType)>, word: Seq<char>) -> (TableM, Option<(usize, TokenType)>) {
    match index {
        None => (e, None),
        Some((idx, scope, rt)) => {
            let is_func = rt == ResolveType::Function;
            match e {
                TableM::FunctionCall(fc) => (TableM::FunctionCall(caller_on_call(fc, index, word)), None),
                TableM::Variable(v) => if is_func {
                    (TableM::Variable(promote(v, idx, word, scope)), Some((idx, v.token_type)))
                } else {
                    (e, None)
                },
                TableM::Reasingment(r) => if is_func {
                    let call = TableM::FunctionCall(new_call(idx, word, scope));
                    let params = match r.parameters {
                        Some(p) => if p.len() > 0 {
                            if p.last() is Reasingment {
                                Some(p.update(p.len() - 1, call))
                            } else {
                                Some(p)
                            }
                        } else {
                            Some(p.push(call))
                        },
                        None => Some(seq![call]),
                    };
                    (
                        TableM::Reasingment(ReasM { parameters: params, ..r }),
                        if !(r.token_type is Unknow) { Some((idx, r.token_type)) } else { None },
                    )
                } else {
                    (e, None)
                },
                TableM::Return(ret) => if is_func {
                    match ret.value {
                        Some(v) => (TableM::Return(RetM { value: Some(promote(v, idx, word, scope)) }), None),
                        None => (e, None),
                    }
                } else {
                    (e, None)
                },
                _ => (e, None),
            }
        },
    }
}

/// The entry with the call it ends with replaced.
#[verifier::opaque]
pub open spec fn set_pending(e: TableM, c: CallM) -> TableM {
    match e {
        TableM::Variable(v) => match v.value {
            Some(vs) => TableM::Variable(VarM { value: Some(vs.update(vs.len() - 1, ValueM::FuncCall(c))), ..v }),
            None => e,
        },
        TableM::Reasingment(r) => TableM::Reasingment(ReasM { parameters: set_last_param(r.parameters, TableM::FunctionCall(c)), ..r }),
        TableM::Return(ret) => match ret.value {
            Some(v) => match v.value {
                Some(vs) => TableM::Return(RetM { value: Some(VarM { value: Some(vs.update(vs.len() - 1, ValueM::FuncCall(c))), ..v }) }),
                None => e,
            },
            None => e,
        },
        _ => e,
    }
}

#[verifier::opaque]
pub open spec fn check_return_type(s: SemM, idx: usize, expected: TokenType, w: WordM) -> SemM {
    match root_entry(s.table, idx as nat) {
        Some(TableM::Function(f)) => match f.return_type {
            Some(rt) => if !tok_eq(rt, expected) {
                push_err(s, word_err(w, msg_return_mismatch(expected, w.word, rt)))
            } else {
                s
            },
            None => s,
        },
        _ => s,
    }
}

pub open spec fn ptr_value(name: Seq<char>, p: Option<PointerType>) -> ValueM {
    match p {
        Some(PointerType::Reference) => ValueM::Ref(name),
        Some(PointerType::Pointer) => ValueM::Deref(name),
        None => ValueM::Var(name),
    }
}

/// The pointer kind of the last word goes to what it became: the last value
/// of a variable, or the last argument of an assignment or call.
#[verifier::opaque]
pub open spec fn add_pointer_info(s: SemM) -> SemM {
    let p = s.ptr_type;
    match act_last(s) {
        Some(TableM::Variable(var)) => match var.value {
            Some(vs) => if vs.len() > 0 && vs.last() is Var {
                set_act_last(s, TableM::Variable(VarM { value: Some(vs.update(vs.len() - 1, ptr_value(vs.last()->Var_0, p))), ..var }))
            } else {
                touch(s)
            },
            None => touch(s),
        },
        Some(TableM::Reasingment(r)) => match last_reas(r.parameters) {
            Some(inner) => set_act_last(
                s,
                TableM::Reasingment(ReasM { parameters: set_last_param(r.parameters, TableM::Reasingment(ReasM { ptr: p, ..inner })), ..r }),
            ),
            None => touch(s),
        },
        Some(TableM::FunctionCall(fc)) => match last_reas(fc.parameters) {
            Some(inner) => set_act_last(
                s,
                TableM::FunctionCall(CallM { parameters: set_last_param(fc.parameters, TableM::Reasingment(ReasM { ptr: p, ..inner })), ..fc }),
            ),
            None => touch(s),
        },
        _ => touch(s),
    }
}

pub open spec fn pop_act(s: SemM) -> SemM {
    if act(s).len() > 0 {
        set_act(s, act(s).drop_last())
    } else {
        touch(s)
    }
}

/// A word that continues the entry being written.
#[verifier::opaque]
pub open spec fn handle_argument(
    s: SemM,
    w: WordM,
    token: TokenType,
    index: Option<(usize, Scope, ResolveType)>,
    in_reas: bool,
    in_fc: bool,
    in_nested: bool,
    expected: nat,
    fc_len: nat,
    fc_target: usize,
) -> Option<SemM> {
    let s1 = SemM { set_return_value: false, acces_var: false, ..s };
    if index matches Some((_, _, rt)) && rt == ResolveType::Struct {
        match struct_init(s1) {
            Some(r) => Some(r),
            None => handle_argument_rest(touch(s1), w, token, index, in_reas, in_fc, in_nested, expected, fc_len, fc_target),
        }
    } else {
        handle_argument_rest(s1, w, token, index, in_reas, in_fc, in_nested, expected, fc_len, fc_target)
    }
}

/// A struct name given to a variable or assignment starts the struct's
/// initializer for that instance (a pending assignment is dropped); nothing
/// where the entry has no name to give.
#[verifier::opaque]
pub open spec fn struct_init(s: SemM) -> Option<SemM> {
    let inst = match act_last(s) {
        Some(TableM::Variable(v)) => v.name,
        Some(TableM::Reasingment(r)) => Some(r.name),
        _ => None,
    };
    let s2 = touch(s);
    match inst {
        Some(name) => {
            let s3 = SemM { current_struct_init: Some(name), set_value: false, ..s2 };
            let was_reas = act_last(s3) matches Some(TableM::Reasingment(_));
            let s4 = touch(s3);
            Some(if was_reas { pop_act(s4) } else { s4 })
        },
        None => None,
    }
}

#[verifier::opaque]
pub open spec fn handle_argument_rest(
    s: SemM,
    w: WordM,
    token: TokenType,
    index: Option<(usize, Scope, ResolveType)>,
    in_reas: bool,
    in_fc: bool,
    in_nested: bool,
    expected: nat,
    fc_len: nat,
    fc_target: usize,
) -> Option<SemM> {
    let sv = if token is PlusPlus || token is MinusMinus {
        false
    } else {
        s.set_value && is_operator_token(token)
    };
    let s1 = SemM { set_value: sv, ..s };
    let checked = if in_fc || in_nested {
        if fc_len >= expected {
            if fc_len + 1 > usize::MAX {
                None
            } else {
                Some(push_err(s1, word_err(w, msg_too_many(expected, fc_len + 1))))
            }
        } else {
            check_parameters(s1, w, token, index, fc_len, fc_target)
        }
    } else {
        Some(s1)
    };
    match checked {
        None => None,
        Some(s2) => {
            let s3 = if (in_reas || in_fc || in_nested) && token is Unknow && index is None {
                push_err(s2, word_err(w, msg_undefined(w.word)))
            } else {
                s2
            };
            Some(handle_argument_tail(s3, w, index, in_nested))
        },
    }
}

#[verifier::opaque]
pub open spec fn handle_argument_tail(s: SemM, w: WordM, index: Option<(usize, Scope, ResolveType)>, in_nested: bool) -> SemM {
    let last = act_last(s);
    let s1 = touch(s);
    match last {
        None => push_err(s1, word_err(w, msg_no_last())),
        Some(e) => {
            let s2 = match mismatch_of(e, w.word, s.ptr_type, in_nested) {
                Some((exp, found, p)) => push_err(s1, word_err(w, msg_mismatch(p, exp, found))),
                None => s1,
            };
            match act_last(s2) {
                None => push_err(touch(s2), word_err(w, msg_no_last())),
                Some(ne) => if in_nested && pending_in(ne) is Some {
                    set_act_last(s2, set_pending(ne, caller_on_call(call_add(pending_in(ne)->0, w.word), index, w.word)))
                } else {
                    let (ne3, ret) = add_caller_info(table_add(ne, w.word), index, w.word);
                    let s3 = set_act_last(s2, ne3);
                    let s4 = match ret {
                        Some((idx, et)) => check_return_type(s3, idx, et, w),
                        None => s3,
                    };
                    add_pointer_info(s4)
                },
            }
        },
    }
}

/// A word that starts a new entry: a keyword or type starts its entry; a
/// name that resolved starts a call, a struct variable or an assignment; a
/// field name inside a struct initializer starts an assignment to the member.
#[verifier::opaque]
pub open spec fn handle_new_entry(s: SemM, w: WordM, token: TokenType, index: Option<(usize, Scope, ResolveType)>) -> Option<SemM> {
    if !is_value_token(token) {
        Some(add_entry(s, token))
    } else {
        match index {
            Some((idx, scope, rt)) => {
                let s1 = SemM { set_value: true, ..s };
                if rt == ResolveType::Function {
                    Some(set_act(s1, act(s1).push(TableM::FunctionCall(new_call(idx, w.word, scope)))))
                } else if rt == ResolveType::Struct {
                    Some(add_entry(s1, TokenType::StructDef(str_canon(w.word))))
                } else if scope is EnbedFunc {
                    None
                } else {
                    let tt = entry_type(target_entry(s1.table, idx as nat, scope));
                    let (name, ai) = match array_split(w.word) {
                        Some((n, i)) => (n, Some(i)),
                        None => (w.word, None),
                    };
                    let r = ReasM {
                        target: idx,
                        target_scope: scope,
                        parameters: None,
                        name,
                        token_type: tt,
                        ptr: s.ptr_type,
                        array_index: ai,
                    };
                    Some(set_act(s1, act(s1).push(TableM::Reasingment(r))))
                }
            },
            None => match s.current_struct_init {
                Some(inst) => {
                    let (target, sc) = match resolve_name(s, inst) {
                        Some((i, sc, _)) => (i, sc),
                        None => (0usize, Scope::Root),
                    };
                    let r = ReasM {
                        target,
                        target_scope: sc,
                        parameters: None,
                        name: mangle(inst, w.word),
                        token_type: TokenType::Unknow,
                        ptr: s.ptr_type,
                        array_index: None,
                    };
                    Some(SemM { set_value: true, ..set_act(s, act(s).push(TableM::Reasingment(r))) })
                },
                None => Some(push_err(s, word_err(w, msg_undefined(w.word)))),
            },
        }
    }
}

/// What the entry being written says about a new word: whether it is an
/// argument of a call (`is_fc`) or of a call nested in a value
/// (`in_nested`), and the call's target, scope and argument count.
#[verifier::opaque]
pub open spec fn call_context(e: Option<TableM>, dp: bool) -> (bool, bool, usize, Scope, nat) {
    match e {
        Some(TableM::FunctionCall(fc)) => if dp {
            (true, false, fc.target, fc.scope, len_or_zero(fc.parameters))
        } else {
            (false, false, 0usize, Scope::Root, 0nat)
        },
        Some(TableM::Variable(v)) => if dp && pending_in(TableM::Variable(v)) is Some {
            let p = pending_in(TableM::Variable(v))->0;
            (false, true, p.target, Scope::Root, len_or_zero(p.parameters))
        } else {
            (false, false, 0usize, Scope::Root, 0nat)
        },
        Some(TableM::Return(r)) => if dp && pending_in(TableM::Return(r)) is Some {
            let p = pending_in(TableM::Return(r))->0;
            (false, true, p.target, Scope::Root, len_or_zero(p.parameters))
        } else {
            (false, false, 0usize, Scope::Root, 0nat)
        },
        _ => (false, false, 0usize, Scope::Root, 0nat),
    }
}

/// How many arguments the called function takes; nothing where a built-in's
/// number is out of range.
#[verifier::opaque]
pub open spec fn expected_args(s: SemM, target: usize, scope: Scope) -> Option<nat> {
    if scope is EnbedFunc {
        if target < builtin_count() {
            Some(1)
        } else {
            None
        }
    } else {
        match root_entry(s.table, target as nat) {
            Some(TableM::Function(f)) => Some(len_or_zero(f.parameters)),
            _ => Some(0),
        }
    }
}

/// A value word (a literal or a name): an argument of the entry being
/// written, or the start of a new entry.
#[verifier::opaque]
pub open spec fn tokenize_value(s: SemM, w: WordM, token: TokenType) -> Option<SemM> {
    let index = resolve(s, w.word);
    let finished0 = match act_last(s) {
        Some(e) => table_finished(e),
        None => true,
    };
    let s1 = touch(s);
    let (is_fc, in_nested, fc_target, fc_scope, fc_len) = call_context(act_last(s1), s1.defining_parameters);
    let s2 = touch(s1);
    let exp = if is_fc || in_nested {
        expected_args(s2, fc_target, fc_scope)
    } else {
        Some(0)
    };
    match exp {
        None => None,
        Some(expected) => {
            let last_finished = if is_fc || in_nested { false } else { finished0 };
            let in_reas = act_last(s2) matches Some(TableM::Reasingment(_));
            let s3 = touch(s2);
            let in_fc = (act_last(s3) matches Some(TableM::FunctionCall(_))) && s3.defining_parameters;
            let s4 = touch(s3);
            let in_cond = act_last(s4) matches Some(TableM::Conditional(_));
            let s5 = touch(s4);
            let in_call = (in_reas || in_fc || in_cond || in_nested) && !last_finished;
            if !last_finished || s5.set_value || s5.set_return_value || in_call {
                handle_argument(s5, w, token, index, in_reas, in_fc, in_nested, expected, fc_len, fc_target)
            } else {
                handle_new_entry(s5, w, token, index)
            }
        },
    }
}

/// `s` without the character `c`.
pub open spec fn remove_char(s: Seq<char>, c: char) -> Seq<char>
    decreases s.len(),
{
    if s.len() == 0 {
        s
    } else {
        let r = remove_char(s.drop_last(), c);
        if s.last() == c {
            r
        } else {
            r.push(s.last())
        }
    }
}

/// The pointer kind a word announces and the word without it: a leading `&`
/// or `*` sets the kind (and every such character is dropped), unless the
/// whole word is an operator such as `*`, `&` or `&&`.
pub open spec fn split_ptr(word: Seq<char>) -> (Option<PointerType>, Seq<char>) {
    if word.len() > 0 && word[0] == '&' && !is_operator_token(token_of(word)) {
        (Some(PointerType::Reference), remove_char(word, '&'))
    } else if word.len() > 0 && word[0] == '*' && !is_operator_token(token_of(word)) {
        (Some(PointerType::Pointer), remove_char(word, '*'))
    } else {
        (None, word)
    }
}

/// One word: its pointer kind is split off (`split_ptr`); `=` is skipped,
/// `->` announces a return type, `::` a member access.
#[verifier::opaque]
pub open spec fn tokenize_word(s: SemM, w: WordM) -> Option<SemM> {
    let (ptr, word) = split_ptr(w.word);
    let w1 = WordM { word, ..w };
    let token = token_of(word);
    let s1 = SemM { ptr_type: ptr, set_value: s.set_value || is_operator_token(token), ..s };
    if token is Equals {
        Some(s1)
    } else if token is ReturnType {
        Some(SemM { set_return_value: true, ..s1 })
    } else if token is Dots {
        Some(SemM { struct_instance_name: preceding_name(s1), acces_var: true, ..s1 })
    } else if s1.acces_var {
        Some(access_field(SemM { acces_var: false, ..s1 }, w1))
    } else {
        tokenize_value(s1, w1, token)
    }
}

// ---------------------------------------------------------------------------
// Lines and blocks, over models.

/// How many bytes UTF-8 takes for a character.
pub open spec fn utf8_len_char(c: char) -> nat {
    if (c as u32) < 0x80 {
        1
    } else if (c as u32) < 0x800 {
        2
    } else if (c as u32) < 0x10000 {
        3
    } else {
        4
    }
}

/// How many bytes UTF-8 takes for a text (what `str::len` gives).
pub open spec fn utf8_len(s: Seq<char>) -> nat
    decreases s.len(),
{
    if s.len() == 0 {
        0
    } else {
        utf8_len(s.drop_last()) + utf8_len_char(s.last())
    }
}

/// The first `::` in `s` at index `i` or later.
pub open spec fn first_dc(s: Seq<char>, i: nat) -> Option<nat>
    decreases s.len() - i,
{
    if i + 1 >= s.len() {
        None
    } else if s[i as int] == ':' && s[i + 1int] == ':' {
        Some(i)
    } else {
        first_dc(s, i + 1)
    }
}

pub proof fn lemma_first_dc(s: Seq<char>, i: nat)
    ensures
        first_dc(s, i) matches Some(j) ==> i <= j && j + 1 < s.len() && s[j as int] == ':' && s[j + 1int] == ':',
        first_dc(s, i) is None ==> forall|j: int| i <= j && j + 1 < s.len() ==> !(#[trigger] s[j] == ':' && s[j + 1] == ':'),
    decreases s.len() - i,
{
    if i + 1 < s.len() && !(s[i as int] == ':' && s[i + 1int] == ':') {
        lemma_first_dc(s, i + 1);
    }
}

/// `s` from index `start` on, split at each `::`.
pub open spec fn split_from(s: Seq<char>, start: nat) -> Seq<Seq<char>>
    decreases s.len() - start,
{
    match first_dc(s, start) {
        None => seq![s.skip(start as int)],
        Some(i) => {
            proof {
                lemma_first_dc(s, start);
            }
            seq![s.subrange(start as int, i as int)] + split_from(s, i + 2)
        },
    }
}

/// `s` split at each `::`, as `str::split("::")` does.
pub open spec fn split_dc(s: Seq<char>) -> Seq<Seq<char>> {
    split_from(s, 0)
}

/// The words a word splits into at `::` (each `::` a word too), placed by
/// byte offsets from the word's column; nothing where a column overflows.
#[verifier::opaque]
pub open spec fn split_words(w: WordM, parts: Seq<Seq<char>>, k: nat, count: nat) -> Option<Seq<WordM>>
    decreases parts.len() - k,
{
    if k >= parts.len() {
        Some(seq![])
    } else {
        let cn: nat = match w.char_num {
            Some(c) => c as nat,
            None => 0,
        };
        let part = parts[k as int];
        let count2 = count + utf8_len(part);
        if cn + count > usize::MAX || count2 > usize::MAX {
            None
        } else {
            let pw = WordM { word: part, line: w.line, char_num: Some((cn + count) as usize) };
            if k + 1 < parts.len() {
                if cn + count2 > usize::MAX || count2 + 2 > usize::MAX {
                    None
                } else {
                    let dw = WordM { word: "::"@, line: w.line, char_num: Some((cn + count2) as usize) };
                    match split_words(w, parts, k + 1, count2 + 2) {
                        Some(rest) => Some(seq![pw, dw] + rest),
                        None => None,
                    }
                }
            } else {
                match split_words(w, parts, k + 1, count2) {
                    Some(rest) => Some(seq![pw] + rest),
                    None => None,
                }
            }
        }
    }
}

/// A line after its words are normalized: words, or a stop before any word
/// is read (an empty word), or an overflow of a column.
pub enum Norm {
    Words(Seq<WordM>),
    Empty,
    Overflow,
}

pub open spec fn ends_with2(s: Seq<char>, a: char) -> bool {
    s.len() >= 2 && s[s.len() - 2] == a && s[s.len() - 1] == a
}

/// The words of one normalized word: `x++` and `x--` split off the
/// operator; otherwise the word splits at `::`.
#[verifier::opaque]
pub open spec fn expand_word(w: WordM) -> Option<Seq<WordM>> {
    let wd = w.word;
    if wd.len() > 2 && ends_with2(wd, '+') {
        Some(seq![WordM { word: wd.take(wd.len() - 2), ..w }, WordM { word: "++"@, ..w }])
    } else if wd.len() > 2 && ends_with2(wd, '-') {
        Some(seq![WordM { word: wd.take(wd.len() - 2), ..w }, WordM { word: "--"@, ..w }])
    } else {
        split_words(w, split_dc(wd), 0, 0)
    }
}

/// Normalizing the words of a line from index `i` on: a trailing comma goes
/// (but not from a string), lone commas and braces are dropped, and an index
/// `[ i ]` or `[i]` joins the word before it.
pub open spec fn normalize(line: Seq<WordM>, i: nat) -> Norm
    decreases line.len() - i,
{
    if i >= line.len() {
        Norm::Words(seq![])
    } else {
        let w0 = line[i as int];
        let wd = if w0.word.len() > 1 && w0.word.last() == ',' && w0.word[0] != '"' {
            w0.word.drop_last()
        } else {
            w0.word
        };
        if wd == ","@ || wd == "{"@ || wd == "}"@ {
            normalize(line, i + 1)
        } else {
            let (wd2, next) = if i + 3 < line.len() && line[i + 1int].word == "["@ && line[i + 3int].word == "]"@ {
                (wd + "["@ + line[i + 2int].word + "]"@, i + 4)
            } else if i + 1 < line.len() && line[i + 1int].word.len() > 0 && line[i + 1int].word[0] == '['
                && line[i + 1int].word.last() == ']' {
                (wd + line[i + 1int].word, i + 2)
            } else {
                (wd, i + 1)
            };
            if wd2.len() == 0 {
                Norm::Empty
            } else {
                match expand_word(WordM { word: wd2, ..w0 }) {
                    None => Norm::Overflow,
                    Some(ws) => match normalize(line, next) {
                        Norm::Words(rest) => Norm::Words(ws + rest),
                        other => other,
                    },
                }
            }
        }
    }
}

/// A word without its trailing comma, unless it is a string or the comma alone.
pub open spec fn strip_comma(w: Seq<char>) -> Seq<char> {
    if w.len() > 1 && w.last() == ',' && w[0] != '"' {
        w.drop_last()
    } else {
        w
    }
}

/// The words that normalizing gives for `word` (taking the place of
/// `line[i]`) followed by the rest of the line from `next` on.
pub open spec fn norm_then(line: Seq<WordM>, i: nat, word: Seq<char>, next: nat) -> Norm {
    if word.len() == 0 {
        Norm::Empty
    } else {
        match expand_word(WordM { word, ..line[i as int] }) {
            None => Norm::Overflow,
            Some(ws) => match normalize(line, next) {
                Norm::Words(rest) => Norm::Words(ws + rest),
                other => other,
            },
        }
    }
}

/// How a line is normalized, word by word: a trailing comma is dropped
/// (but not from a string), a lone `,`, `{` or `}` is skipped, a word
/// followed by `[`, an index and `]`, or by a word `[i]`, is joined with
/// them into one word `a[i]`, and any other word stands for itself; then
/// each word is expanded as `expand_word` says.
pub proof fn lemma_normalize_rules(line: Seq<WordM>, i: nat)
    requires
        i < line.len(),
    ensures
        ({
            let wd = strip_comma(line[i as int].word);
            let skip = wd == ","@ || wd == "{"@ || wd == "}"@;
            let spaced = i + 3 < line.len() && line[i + 1int].word == "["@ && line[i + 3int].word == "]"@;
            let glued = i + 1 < line.len() && line[i + 1int].word.len() > 0 && line[i + 1int].word[0] == '['
                && line[i + 1int].word.last() == ']';
            &&& skip ==> normalize(line, i) == normalize(line, i + 1)
            &&& !skip && spaced ==> normalize(line, i) == norm_then(line, i, wd + "["@ + line[i + 2int].word + "]"@, i + 4)
            &&& !skip && !spaced && glued ==> normalize(line, i) == norm_then(line, i, wd + line[i + 1int].word, i + 2)
            &&& !skip && !spaced && !glued ==> normalize(line, i) == norm_then(line, i, wd, i + 1)
        }),
{
}

/// How a word expands: `x++` and `x--` become `x` and the operator, both at
/// the word's place; a word without `::` stays as it is; and `a::b`
/// becomes `a`, `::` and `b`, each at its own column (counted in UTF-8
/// bytes from the word's column).
pub proof fn lemma_expand_word_rules(w: WordM)
    ensures
        w.word.len() > 2 && ends_with2(w.word, '+')
            ==> expand_word(w) == Some(seq![WordM { word: w.word.take(w.word.len() - 2), ..w }, WordM { word: "++"@, ..w }]),
        w.word.len() > 2 && !ends_with2(w.word, '+') && ends_with2(w.word, '-')
            ==> expand_word(w) == Some(seq![WordM { word: w.word.take(w.word.len() - 2), ..w }, WordM { word: "--"@, ..w }]),
        !(w.word.len() > 2 && (ends_with2(w.word, '+') || ends_with2(w.word, '-')))
            && (forall|j: int| 0 <= j && j + 1 < w.word.len() ==> !(#[trigger] w.word[j] == ':' && w.word[j + 1] == ':'))
            && (w.char_num matches Some(c) && c + utf8_len(w.word) <= usize::MAX)
            ==> expand_word(w) == Some(seq![w]),
{
    reveal(expand_word);
    let wd = w.word;
    if !(wd.len() > 2 && (ends_with2(wd, '+') || ends_with2(wd, '-')))
        && (forall|j: int| 0 <= j && j + 1 < wd.len() ==> !(#[trigger] wd[j] == ':' && wd[j + 1] == ':'))
        && (w.char_num matches Some(c) && c + utf8_len(wd) <= usize::MAX) {
        lemma_first_dc(wd, 0);
        if let Some(j) = first_dc(wd, 0) {
            assert(wd[j as int] == ':' && wd[j + 1int] == ':');
        }
        assert(split_dc(wd) == seq![wd.skip(0)]);
        assert(wd.skip(0) =~= wd);
        reveal(split_words);
        let c = w.char_num->0;
        assert(split_words(w, seq![wd], 1, utf8_len(wd)) == Some(Seq::<WordM>::empty()));
        assert(split_words(w, seq![wd], 0, 0) == Some(seq![WordM { word: wd, line: w.line, char_num: Some((c + 0) as usize) }] + Seq::<WordM>::empty()));
        assert(seq![WordM { word: wd, line: w.line, char_num: Some((c + 0) as usize) }] + Seq::<WordM>::empty() =~= seq![w]);
    }
}

/// A member access `a::b` (neither part holding `:`) expands to `a`, `::`
/// and `b`, on the word's line, at the word's column and the UTF-8 byte
/// columns after it.
pub proof fn lemma_expand_member(w: WordM, a: Seq<char>, b: Seq<char>, c: usize)
    requires
        w.word == a + "::"@ + b,
        forall|j: int| 0 <= j < a.len() ==> #[trigger] a[j] != ':',
        forall|j: int| 0 <= j < b.len() ==> #[trigger] b[j] != ':',
        !(w.word.len() > 2 && (ends_with2(w.word, '+') || ends_with2(w.word, '-'))),
        w.char_num == Some(c),
        c + utf8_len(w.word) <= usize::MAX,
    ensures
        expand_word(w) == Some(seq![
            WordM { word: a, line: w.line, char_num: Some(c) },
            WordM { word: "::"@, line: w.line, char_num: Some((c + utf8_len(a)) as usize) },
            WordM { word: b, line: w.line, char_num: Some((c + utf8_len(a) + 2) as usize) },
        ]),
{
    reveal(expand_word);
    reveal_strlit("::");
    let wd = w.word;
    let n = a.len();
    assert(wd[n as int] == ':' && wd[n + 1int] == ':');
    assert forall|j: int| 0 <= j < n implies !(#[trigger] wd[j] == ':' && wd[j + 1] == ':') by {
        assert(wd[j] == a[j]);
    }
    lemma_first_dc_at(wd, 0, n);
    assert(wd.subrange(0, n as int) =~= a);
    let rest = n + 2;
    lemma_first_dc(wd, rest);
    if let Some(j) = first_dc(wd, rest) {
        assert(wd[j as int] == b[j - rest]);
    }
    assert(wd.skip(rest as int) =~= b);
    assert(first_dc(wd, rest) is None);
    assert(split_from(wd, rest) == seq![wd.skip(rest as int)]);
    assert(split_from(wd, 0) == seq![wd.subrange(0, n as int)] + split_from(wd, rest));
    assert(split_dc(wd) == seq![a] + seq![b]);
    assert(seq![a] + seq![b] =~= seq![a, b]);
    // The byte length of the whole word bounds those of its parts.
    assert(wd.take(n as int) =~= a);
    lemma_utf8_mono(wd, n as int);
    lemma_utf8_concat(a + "::"@, b);
    lemma_utf8_concat(a, "::"@);
    assert(utf8_len("::"@) == 2) by {
        assert((':' as u32) < 0x80);
        assert(utf8_len_char(':') == 1);
        assert("::"@.drop_last() =~= seq![':']);
        assert(seq![':'].drop_last() =~= Seq::<char>::empty());
        assert(utf8_len(seq![':']) == utf8_len(Seq::<char>::empty()) + utf8_len_char(':'));
        assert("::"@.last() == ':');
        assert(utf8_len("::"@) == utf8_len(seq![':']) + utf8_len_char(':'));
    }
    reveal(split_words);
    let parts = seq![a, b];
    let ua = utf8_len(a);
    let ub = utf8_len(b);
    assert(split_words(w, parts, 2, ua + 2 + ub) == Some(Seq::<WordM>::empty()));
    assert(split_words(w, parts, 1, ua + 2) == Some(seq![WordM { word: b, line: w.line, char_num: Some((c + ua + 2) as usize) }] + Seq::<WordM>::empty()));
    let r = split_words(w, parts, 0, 0);
    assert(r == Some(seq![
        WordM { word: a, line: w.line, char_num: Some((c + 0) as usize) },
        WordM { word: "::"@, line: w.line, char_num: Some((c + ua) as usize) },
    ] + (seq![WordM { word: b, line: w.line, char_num: Some((c + ua + 2) as usize) }] + Seq::<WordM>::empty())));
    assert(r->0 =~= seq![
        WordM { word: a, line: w.line, char_num: Some(c) },
        WordM { word: "::"@, line: w.line, char_num: Some((c + ua) as usize) },
        WordM { word: b, line: w.line, char_num: Some((c + ua + 2) as usize) },
    ]);
}

proof fn lemma_first_dc_at(s: Seq<char>, i: nat, n: nat)
    requires
        i <= n,
        n + 1 < s.len(),
        s[n as int] == ':' && s[n + 1int] == ':',
        forall|j: int| i <= j < n ==> !(#[trigger] s[j] == ':' && s[j + 1] == ':'),
    ensures
        first_dc(s, i) == Some(n),
    decreases n - i,
{
    if i < n {
        lemma_first_dc_at(s, i + 1, n);
    }
}

proof fn lemma_utf8_concat(a: Seq<char>, b: Seq<char>)
    ensures
        utf8_len(a + b) == utf8_len(a) + utf8_len(b),
    decreases b.len(),
{
    if b.len() > 0 {
        lemma_utf8_concat(a, b.drop_last());
        assert((a + b).drop_last() =~= a + b.drop_last());
    } else {
        assert(a + b =~= a);
    }
}

pub open spec fn tokenize_words(s: SemM, ws: Seq<WordM>, k: nat) -> Option<SemM>
    decreases ws.len() - k,
{
    if k >= ws.len() {
        Some(s)
    } else {
        match tokenize_word(s, ws[k as int]) {
            None => None,
            Some(s1) => tokenize_words(s1, ws, k + 1),
        }
    }
}

/// A line: its words normalized, then read one by one.
pub open spec fn tokenize_line(s: SemM, line: Seq<WordM>) -> Option<SemM> {
    match normalize(line, 0) {
        Norm::Overflow => None,
        Norm::Empty => Some(s),
        Norm::Words(ws) => tokenize_words(s, ws, 0),
    }
}

pub open spec fn tokenize_lines(s: SemM, ls: Seq<Seq<WordM>>, k: nat) -> Option<SemM>
    decreases ls.len() - k,
{
    if k >= ls.len() {
        Some(s)
    } else {
        match tokenize_line(s, ls[k as int]) {
            None => None,
            Some(s1) => tokenize_lines(s1, ls, k + 1),
        }
    }
}

/// The analysis of one block: a word, a line, statements, a `{ .. }`
/// block that nests one level deeper (and is a function's body when the
/// active table ends with a function), or a `( .. )` block of parameters or
/// arguments. Nothing where the analysis would stop on a panic (a lookup
/// that is not written, an index out of range, or an overflow).
pub open spec fn analyze_one(s: SemM, b: BlockM) -> Option<SemM>
    decreases b, 0nat,
{
    match b {
        BlockM::Word(w) => tokenize_word(s, w),
        BlockM::Line(ws) => tokenize_line(s, ws),
        BlockM::Multiple(ls) => tokenize_lines(s, ls, 0),
        BlockM::Collection(inner) => {
            let last_is_fn = act_last(s) matches Some(TableM::Function(_));
            let s1 = touch(s);
            if s1.max_nesting == usize::MAX {
                None
            } else {
                let s2 = SemM { max_nesting: (s1.max_nesting + 1) as usize, ..s1 };
                let r = if last_is_fn && !s2.defining_fn {
                    match analyze_blocks(SemM { defining_fn: true, ..s2 }, inner, 0) {
                        Some(s3) => Some(SemM { defining_fn: false, ..s3 }),
                        None => None,
                    }
                } else {
                    analyze_blocks(s2, inner, 0)
                };
                match r {
                    None => None,
                    Some(s4) => if s4.max_nesting == 0 {
                        None
                    } else {
                        Some(SemM { max_nesting: (s4.max_nesting - 1) as usize, current_struct_init: None, ..s4 })
                    },
                }
            }
        },
        BlockM::Parameter(inner) => {
            match analyze_blocks(SemM { defining_fn: true, defining_parameters: true, ..s }, inner, 0) {
                Some(s3) => Some(SemM { defining_parameters: false, defining_fn: s.defining_fn, ..s3 }),
                None => None,
            }
        },
    }
}

/// The analysis of blocks from index `i` on.
pub open spec fn analyze_blocks(s: SemM, bs: Seq<BlockM>, i: nat) -> Option<SemM>
    decreases bs, bs.len() - i,
{
    if i >= bs.len() {
        Some(s)
    } else {
        match analyze_one(s, bs[i as int]) {
            None => None,
            Some(s5) => analyze_blocks(s5, bs, i + 1),
        }
    }
}

/// The symbol table of parsed blocks, or the errors found; nothing where the
/// analysis stops on a panic.
pub open spec fn analysis(bs: Seq<BlockM>) -> Option<Result<Seq<TableM>, Seq<ErrM>>> {
    match analyze_blocks(sem_start(), bs, 0) {
        None => None,
        Some(s) => Some(if s.errors.len() > 0 { Err(s.errors) } else { Ok(s.table) }),
    }
}

// ---------------------------------------------------------------------------
// Reading words.

pub proof fn lemma_drop_push(s: Seq<TableM>, x: TableM)
    requires
        s.len() > 0,
    ensures
        s.drop_last().push(x) == s.update(s.len() - 1, x),
        s.drop_last().push(s.last()) == s,
{
    assert(s.drop_last().push(x) =~= s.update(s.len() - 1, x));
    assert(s.drop_last().push(s.last()) =~= s);
}

fn ref_table_of<'a>(t: &'a Vec<TableTypes>, dp: bool, dfn: bool, rem: Option<usize>, Ghost(level): Ghost<nat>, Ghost(max): Ghost<nat>) -> (r: &'a Vec<TableTypes>)
    requires
        rem matches Some(k) ==> level + k == max,
        rem is None ==> level > max,
    ensures
        tables_view(r@) == ref_table(tables_view(t@), dp, dfn, level, max),
    decreases t,
{
    let n = t.len();
    if n == 0 {
        return t;
    }
    proof {
        lemma_tables_drop_last(t@);
        vstd::std_specs::vec::axiom_vec_index_decreases(*t, n - 1);
    }
    let at_max = rem == Some(0usize);
    assert(at_max == (level == max));
    match &t[n - 1] {
        TableTypes::Function(f) => {
            if at_max && !dp {
                return t;
            }
            if dp && f.table.len() == 0 {
                match &f.parameters {
                    Some(p) => p,
                    None => t,
                }
            } else {
                ref_table_of(&f.table, dp, dfn, next_rem(rem), Ghost(level + 1), Ghost(max))
            }
        },
        TableTypes::Conditional(c) => {
            if at_max {
                return t;
            }
            ref_table_of(&c.table, dp, dfn, next_rem(rem), Ghost(level + 1), Ghost(max))
        },
        TableTypes::Loop(l) => {
            if at_max {
                return t;
            }
            ref_table_of(&l.table, dp, dfn, next_rem(rem), Ghost(level + 1), Ghost(max))
        },
        TableTypes::StructLiteral(st) => {
            if at_max && !dp {
                return t;
            }
            if dfn {
                ref_table_of(&st.functions, dp, dfn, next_rem(rem), Ghost(level + 1), Ghost(max))
            } else {
                ref_table_of(&st.arguments, dp, dfn, next_rem(rem), Ghost(level + 1), Ghost(max))
            }
        },
        _ => t,
    }
}

fn params_are_empty(o: &Option<Vec<TableTypes>>) -> (r: bool)
    ensures
        r == params_empty(opt_tables_view(*o)),
{
    match o {
        Some(p) => p.len() == 0,
        None => true,
    }
}

/// The name of a struct member.
fn mangle_of(inst: &Vec<char>, field: &String) -> (r: String)
    ensures
        r@ == mangle(inst@, field@),
{
    let mut v = copy_chars(inst.as_slice());
    push_all(&mut v, &['_', '_']);
    let f = chars_of(field.as_str());
    push_all(&mut v, f.as_slice());
    proof {
        reveal_strlit("__");
    }
    assert(v@ =~= mangle(inst@, field@));
    string_from(v.as_slice())
}

fn copy_chars(s: &[char]) -> (r: Vec<char>)
    ensures
        r@ == s@,
{
    let mut r: Vec<char> = Vec::new();
    push_all(&mut r, s);
    r
}

/// Retargets an assignment to a struct member.
fn retarget_exec(r: &mut Reasingment, mangled: &String, target: usize, scope: Scope, tok: &TokenType)
    ensures
        final(r)@ == retarget(old(r)@, mangled@, target, scope, canon(*tok)),
{
    r.name = mangled.clone();
    r.target = target;
    r.target_scope = scope;
    r.token_type = tok.copy();
}

/// Applies `retarget` to the last parameter of a list, which is an assignment.
fn retarget_last(o: &mut Option<Vec<TableTypes>>, mangled: &String, target: usize, scope: Scope, tok: &TokenType) -> (done: bool)
    ensures
        done == (last_reas(opt_tables_view(*old(o))) is Some),
        done ==> opt_tables_view(*final(o)) == set_last_param(
            opt_tables_view(*old(o)),
            TableM::Reasingment(retarget(last_reas(opt_tables_view(*old(o)))->0, mangled@, target, scope, canon(*tok))),
        ),
        !done ==> opt_tables_view(*final(o)) == opt_tables_view(*old(o)),
{
    match o {
        Some(p) => {
            let n = p.len();
            if n == 0 {
                assert(tables_view(p@).len() == 0);
                return false;
            }
            let ghost before = p@;
            proof {
                lemma_tables_drop_last(p@);
            }
            let mut e = p.pop().unwrap();
            let done = match &mut e {
                TableTypes::Reasingment(inner) => {
                    retarget_exec(inner, mangled, target, scope, tok);
                    true
                },
                _ => false,
            };
            p.push(e);
            proof {
                lemma_tables_push(before.drop_last(), p@.last());
                assert(p@ =~= before.drop_last().push(p@.last()));
                lemma_drop_push(tables_view(before), table_view(p@.last()));
            }
            if !done {
                assert(p@ =~= before);
            }
            done
        },
        None => false,
    }
}

impl SemanticAnalyzer {
    /// Takes the active table out with its last entry separate.
    fn take_last(&mut self) -> (r: (Vec<Step>, Vec<TableTypes>, Option<TableTypes>))
        ensures
            r.0@ == active(old(self)@),
            match act_last(old(self)@) {
                None => r.2 is None && tables_view(r.1@) == act(old(self)@),
                Some(e) => r.2 matches Some(x) && x@ == e && tables_view(r.1@) == act(old(self)@).drop_last(),
            },
            final(self)@ == (SemM { table: set_path(old(self)@.table, active(old(self)@), seq![]), ..old(self)@ }),
    {
        let (path, mut t) = self.take_active();
        if t.len() == 0 {
            return (path, t, None);
        }
        let ghost before = t@;
        proof {
            lemma_tables_drop_last(t@);
        }
        let e = t.pop();
        (path, t, e)
    }

    /// Puts back the active table taken from `before`, ending with `e` where it had a last entry.
    fn put_last(&mut self, path: Vec<Step>, t: Vec<TableTypes>, e: Option<TableTypes>, Ghost(before): Ghost<SemM>)
        requires
            path@ == active(before),
            old(self)@ == (SemM { table: set_path(before.table, active(before), seq![]), ..before }),
            (e is Some) == (act(before).len() > 0),
            tables_view(t@) == (if act(before).len() > 0 { act(before).drop_last() } else { act(before) }),
        ensures
            final(self)@ == (match e {
                Some(x) => set_act_last(before, x@),
                None => touch(before),
            }),
    {
        let mut t = t;
        let ghost tv = tables_view(t@);
        match e {
            Some(x) => {
                proof {
                    lemma_tables_push(t@, x);
                    lemma_drop_push(act(before), x@);
                }
                t.push(x);
            },
            None => {},
        }
        self.put_active(path, t, Ghost(before));
    }

    fn add_entry(&mut self, token: TokenType)
        ensures
            final(self)@ == add_entry(old(self)@, token),
    {
        proof {
            reveal(add_entry);
        }
        let is_fn = matches!(token, TokenType::FnLiteral);
        let mut table_type = TableTypes::from_token(token);
        match &mut table_type {
            TableTypes::Variable(var) => var.ptr = self.ptr_type,
            TableTypes::Reasingment(re) => re.ptr = self.ptr_type,
            _ => {},
        }
        self.defining_fn = self.defining_fn || is_fn;
        let ghost s1 = self@;
        let (path, mut t) = self.take_active();
        proof {
            lemma_tables_push(t@, table_type);
        }
        t.push(table_type);
        self.put_active(path, t, Ghost(s1));
    }

    fn find_preceding_instance_name(&self) -> (r: Option<String>)
        ensures
            crate::variable_types::opt_string_view(r) == preceding_name(self@),
    {
        proof {
            reveal(preceding_name);
        }
        let a = ref_table_of(&self.table, self.defining_parameters, self.defining_fn, rem_from_one(self.max_nesting),
            Ghost(1), Ghost(self.max_nesting as nat));
        let n = a.len();
        if n == 0 {
            return None;
        }
        proof {
            lemma_tables_drop_last(a@);
        }
        match &a[n - 1] {
            TableTypes::FunctionCall(fc) => match &fc.parameters {
                Some(p) => {
                    if p.len() == 0 {
                        assert(tables_view(p@).len() == 0);
                        return None;
                    }
                    proof {
                        lemma_tables_drop_last(p@);
                    }
                    match &p[p.len() - 1] {
                        TableTypes::Reasingment(r) => Some(r.name.clone()),
                        TableTypes::Variable(v) => v.name.clone(),
                        _ => None,
                    }
                },
                None => None,
            },
            TableTypes::Reasingment(r) => match &r.parameters {
                Some(p) => {
                    if p.len() == 0 {
                        assert(tables_view(p@).len() == 0);
                        return Some(r.name.clone());
                    }
                    proof {
                        lemma_tables_drop_last(p@);
                    }
                    match &p[p.len() - 1] {
                        TableTypes::Reasingment(inner) => Some(inner.name.clone()),
                        TableTypes::Variable(v) => v.name.clone(),
                        _ => None,
                    }
                },
                None => Some(r.name.clone()),
            },
            TableTypes::Variable(v) => match &v.value {
                Some(vs) => {
                    if vs.len() == 0 {
                        assert(values_view(vs@).len() == 0);
                        return v.name.clone();
                    }
                    assert(values_view(vs@).last() == value_view(vs@.last()));
                    match &vs[vs.len() - 1] {
                        Value::Var(n) => Some(n.clone()),
                        _ => v.name.clone(),
                    }
                },
                None => v.name.clone(),
            },
            _ => None,
        }
    }
}

fn var_type(e: &TableTypes) -> (r: TokenType)
    ensures
        canon(r) == entry_type(Some(e@)),
{
    match e {
        TableTypes::Variable(v) => v.token_type.copy(),
        _ => TokenType::Unknow,
    }
}

/// The type of the entry a resolved name refers to, as `target_entry` finds it.
fn target_type_of(t: &Vec<TableTypes>, idx: usize, scope: Scope) -> (r: TokenType)
    ensures
        canon(r) == entry_type(target_entry(tables_view(t@), idx as nat, scope)),
{
    let ghost tv = tables_view(t@);
    match scope {
        Scope::Root => {
            if idx < t.len() {
                assert(tv[idx as int] == table_view(t@[idx as int]));
                var_type(&t[idx])
            } else {
                TokenType::Unknow
            }
        },
        Scope::Function | Scope::Parameter => {
            let mut j = t.len();
            while j > 0
                invariant
                    j <= t@.len(),
                    tv == tables_view(t@),
                    rev_fn_entry(tv, tv.len(), idx as nat) == rev_fn_entry(tv, j as nat, idx as nat),
                    scope == Scope::Function || scope == Scope::Parameter,
                decreases j,
            {
                j = j - 1;
                assert(tv[j as int] == table_view(t@[j as int]));
                match &t[j] {
                    TableTypes::Function(f) => {
                        if idx < f.table.len() {
                            assert(tables_view(f.table@)[idx as int] == table_view(f.table@[idx as int]));
                            assert(rev_fn_entry(tv, (j + 1) as nat, idx as nat) == Some(tables_view(f.table@)[idx as int]));
                            return var_type(&f.table[idx]);
                        }
                    },
                    _ => {},
                }
            }
            TokenType::Unknow
        },
        Scope::EnbedFunc => TokenType::Unknow,
    }
}

impl SemanticAnalyzer {
    fn access_field(&mut self, word: &Word)
        ensures
            final(self)@ == access_field(old(self)@, word@),
    {
        proof {
            reveal(access_field);
        }
        let inst = match self.struct_instance_name.take() {
            Some(n) => chars_of(n.as_str()),
            None => Vec::new(),
        };
        assert(inst@ == (match old(self)@.struct_instance_name {
            Some(n) => n,
            None => seq![],
        }));
        let mangled = mangle_of(&inst, &word.word);
        let (target, scope, tok) = match self.resolve_name(inst.as_slice()) {
            Some((idx, sc, _)) => (idx, sc, target_type_of(&self.table, idx, sc)),
            None => (0usize, Scope::Root, TokenType::Unknow),
        };
        self.access_store(&mangled, target, scope, &tok);
    }

    fn access_store(&mut self, mangled: &String, target: usize, scope: Scope, tok: &TokenType)
        ensures
            final(self)@ == access_store(old(self)@, mangled@, target, scope, canon(*tok)),
    {
        proof {
            reveal(access_store);
        }
        let ghost s0 = self@;
        let (path, t, last) = self.take_last();
        match last {
            Some(mut e) => {
                let ghost e0 = e@;
                let done = match &mut e {
                    TableTypes::Reasingment(r) => {
                        if params_are_empty(&r.parameters) {
                            retarget_exec(r, mangled, target, scope, tok);
                            true
                        } else {
                            false
                        }
                    },
                    _ => false,
                };
                self.put_last(path, t, Some(e), Ghost(s0));
                if !done {
                    assert(act(s0).update(act(s0).len() - 1, e0) =~= act(s0));
                    self.access_in_call(mangled, target, scope, tok);
                }
            },
            None => {
                self.put_last(path, t, None, Ghost(s0));
                self.access_in_call(mangled, target, scope, tok);
            },
        }
    }

    fn access_in_call(&mut self, mangled: &String, target: usize, scope: Scope, tok: &TokenType)
        ensures
            final(self)@ == access_in_call(old(self)@, mangled@, target, scope, canon(*tok)),
    {
        proof {
            reveal(access_in_call);
        }
        let ghost s0 = self@;
        let (path, t, last) = self.take_last();
        let is_call = match &last {
            Some(TableTypes::FunctionCall(_)) => true,
            _ => false,
        };
        match last {
            Some(e) => {
                let ghost e0 = e@;
                self.put_last(path, t, Some(e), Ghost(s0));
                assert(act(s0).update(act(s0).len() - 1, e0) =~= act(s0));
            },
            None => {
                self.put_last(path, t, None, Ghost(s0));
            },
        }
        if is_call && self.defining_parameters {
            let ghost s1 = self@;
            let (path, t, last) = self.take_last();
            match last {
                Some(mut e) => {
                    let ghost e0 = e@;
                    let done = match &mut e {
                        TableTypes::FunctionCall(fc) => retarget_last(&mut fc.parameters, mangled, target, scope, tok),
                        _ => false,
                    };
                    self.put_last(path, t, Some(e), Ghost(s1));
                    if !done {
                        assert(act(s1).update(act(s1).len() - 1, e0) =~= act(s1));
                        self.access_in_assignment(mangled, target, scope, tok);
                    }
                },
                None => {
                    self.put_last(path, t, None, Ghost(s1));
                    self.access_in_assignment(mangled, target, scope, tok);
                },
            }
        } else {
            self.access_in_assignment(mangled, target, scope, tok);
        }
    }

    fn access_in_assignment(&mut self, mangled: &String, target: usize, scope: Scope, tok: &TokenType)
        ensures
            final(self)@ == access_in_assignment(old(self)@, mangled@, target, scope, canon(*tok)),
    {
        proof {
            reveal(access_in_assignment);
        }
        let ghost s0 = self@;
        let (path, t, last) = self.take_last();
        match last {
            Some(mut e) => {
                let ghost e0 = e@;
                let done = match &mut e {
                    TableTypes::Reasingment(r) => retarget_last(&mut r.parameters, mangled, target, scope, tok),
                    _ => false,
                };
                self.put_last(path, t, Some(e), Ghost(s0));
                if !done {
                    assert(act(s0).update(act(s0).len() - 1, e0) =~= act(s0));
                    self.access_in_value(mangled, target, scope, tok);
                }
            },
            None => {
                self.put_last(path, t, None, Ghost(s0));
                self.access_in_value(mangled, target, scope, tok);
            },
        }
    }

    fn access_in_value(&mut self, mangled: &String, target: usize, scope: Scope, tok: &TokenType)
        ensures
            final(self)@ == access_in_value(old(self)@, mangled@, target, scope, canon(*tok)),
    {
        proof {
            reveal(access_in_value);
        }
        let ghost s0 = self@;
        let (path, t, last) = self.take_last();
        match last {
            Some(mut e) => {
                let ghost e0 = e@;
                let done = match &mut e {
                    TableTypes::Variable(v) => match &mut v.value {
                        Some(vals) => {
                            if vals.len() > 0 {
                                let n = vals.len();
                                let ghost before = vals@;
                                let nv = Value::Var(mangled.clone());
                                proof {
                                    lemma_values_update(before, n - 1, nv);
                                }
                                vals.set(n - 1, nv);
                                true
                            } else {
                                assert(values_view(vals@).len() == 0);
                                false
                            }
                        },
                        None => false,
                    },
                    _ => false,
                };
                self.put_last(path, t, Some(e), Ghost(s0));
                if !done {
                    assert(act(s0).update(act(s0).len() - 1, e0) =~= act(s0));
                    self.access_new(mangled, target, scope, tok);
                }
            },
            None => {
                self.put_last(path, t, None, Ghost(s0));
                self.access_new(mangled, target, scope, tok);
            },
        }
    }

    fn access_new(&mut self, mangled: &String, target: usize, scope: Scope, tok: &TokenType)
        ensures
            final(self)@ == access_new(old(self)@, mangled@, target, scope, canon(*tok)),
    {
        proof {
            reveal(access_new);
        }
        let r = Reasingment {
            target,
            target_scope: scope,
            parameters: None,
            name: mangled.clone(),
            token_type: tok.copy(),
            ptr: self.ptr_type,
            array_index: None,
        };
        let ghost s0 = self@;
        let (path, mut t) = self.take_active();
        let e = TableTypes::Reasingment(r);
        proof {
            lemma_tables_push(t@, e);
        }
        t.push(e);
        self.put_active(path, t, Ghost(s0));
        self.set_value = true;
    }
}

/// What the analyzer knows of a word it reads: the word, its kind, and what it resolved to.
struct Entry {
    word: Word,
    token: TokenType,
    index: Option<(usize, Scope, ResolveType)>,
}

fn lit_chars(s: &str) -> (r: Vec<char>)
    ensures
        r@ == s@,
{
    chars_of(s)
}

fn word_error(w: &Word, msg: Vec<char>) -> (r: Error)
    ensures
        r@ == word_err(w@, msg@),
{
    Error {
        msg: string_from(msg.as_slice()),
        line: match w.line {
            Some(l) => l,
            None => 0,
        },
        char: match w.char_num {
            Some(c) => c,
            None => 0,
        },
    }
}

fn too_many_message(expected: usize, n: usize) -> (r: Vec<char>)
    requires
        n < usize::MAX,
    ensures
        r@ == msg_too_many(expected as nat, (n + 1) as nat),
{
    let mut v = lit_chars("Too many arguments for function call. Expected: ");
    push_decimal(&mut v, expected as u64);
    push_all(&mut v, lit_chars(", Found: ").as_slice());
    push_decimal(&mut v, (n + 1) as u64);
    v
}

fn undefined_message(w: &String) -> (r: Vec<char>)
    ensures
        r@ == msg_undefined(w@),
{
    let mut v = lit_chars("Undefined symbol: ");
    push_all(&mut v, chars_of(w.as_str()).as_slice());
    v
}

fn ptr_prefix_chars(p: Option<PointerType>) -> (r: Vec<char>)
    ensures
        r@ == ptr_prefix(p),
{
    match p {
        Some(PointerType::Pointer) => lit_chars("*"),
        Some(PointerType::Reference) => lit_chars("&"),
        None => lit_chars(""),
    }
}

fn mismatch_message(p: Option<PointerType>, expected: &TokenType, found: &TokenType) -> (r: Vec<char>)
    ensures
        r@ == msg_mismatch(p, canon(*expected), canon(*found)),
{
    proof {
        lemma_canon_text(*expected);
        lemma_canon_text(*found);
    }
    let mut v = lit_chars("Type mismatch. Expected: ");
    push_all(&mut v, ptr_prefix_chars(p).as_slice());
    push_all(&mut v, expected.text().as_slice());
    push_all(&mut v, lit_chars(", Found: ").as_slice());
    push_all(&mut v, found.text().as_slice());
    v
}

fn arg_mismatch_message(n: usize, expected: &TokenType, actual: &TokenType) -> (r: Vec<char>)
    requires
        n < usize::MAX,
    ensures
        r@ == msg_arg_mismatch((n + 1) as nat, canon(*expected), canon(*actual)),
{
    proof {
        lemma_canon_text(*expected);
        lemma_canon_text(*actual);
    }
    let mut v = lit_chars("Type mismatch for argument ");
    push_decimal(&mut v, (n + 1) as u64);
    push_all(&mut v, lit_chars(" of function call: expected ").as_slice());
    push_all(&mut v, expected.debug_text().as_slice());
    push_all(&mut v, lit_chars(", got ").as_slice());
    push_all(&mut v, actual.debug_text().as_slice());
    v
}

fn expected_ptr_chars(p: Option<PointerType>) -> (r: Vec<char>)
    ensures
        r@ == expected_ptr_text(p),
{
    match p {
        Some(PointerType::Pointer) => lit_chars("pointer (*T) — pass with &var"),
        Some(PointerType::Reference) => lit_chars("reference (&T)"),
        None => lit_chars("plain value"),
    }
}

fn actual_ptr_chars(p: Option<PointerType>) -> (r: Vec<char>)
    ensures
        r@ == actual_ptr_text(p),
{
    match p {
        Some(PointerType::Pointer) => lit_chars("dereference (*var)"),
        Some(PointerType::Reference) => lit_chars("address-of (&var)"),
        None => lit_chars("plain value"),
    }
}

fn ptr_mismatch_message(n: usize, expected: Option<PointerType>, actual: Option<PointerType>) -> (r: Vec<char>)
    requires
        n < usize::MAX,
    ensures
        r@ == msg_ptr_mismatch((n + 1) as nat, expected, actual),
{
    let mut v = lit_chars("Pointer kind mismatch for argument ");
    push_decimal(&mut v, (n + 1) as u64);
    push_all(&mut v, lit_chars(" of function call: expected ").as_slice());
    push_all(&mut v, expected_ptr_chars(expected).as_slice());
    push_all(&mut v, lit_chars(", got ").as_slice());
    push_all(&mut v, actual_ptr_chars(actual).as_slice());
    v
}

fn return_mismatch_message(expected: &TokenType, word: &String, ret: &TokenType) -> (r: Vec<char>)
    ensures
        r@ == msg_return_mismatch(canon(*expected), word@, canon(*ret)),
{
    proof {
        lemma_canon_text(*expected);
        lemma_canon_text(*ret);
    }
    let mut v = lit_chars("Type mismatch: variable is '");
    push_all(&mut v, expected.text().as_slice());
    push_all(&mut v, lit_chars("' but function '").as_slice());
    push_all(&mut v, chars_of(word.as_str()).as_slice());
    push_all(&mut v, lit_chars("' returns '").as_slice());
    push_all(&mut v, ret.text().as_slice());
    push_all(&mut v, lit_chars("'").as_slice());
    v
}

fn expected_param_of(t: &Vec<TableTypes>, target: usize, n: usize) -> (r: (Option<TokenType>, Option<PointerType>))
    ensures
        opt_canon(r.0) == expected_param(tables_view(t@), target, n as nat).0,
        r.1 == expected_param(tables_view(t@), target, n as nat).1,
{
    proof {
        reveal(expected_param);
    }
    if target >= t.len() {
        return (None, None);
    }
    assert(tables_view(t@)[target as int] == table_view(t@[target as int]));
    match &t[target] {
        TableTypes::Function(f) => match &f.parameters {
            Some(ps) => {
                if n < ps.len() {
                    assert(tables_view(ps@)[n as int] == table_view(ps@[n as int]));
                    match &ps[n] {
                        TableTypes::Variable(v) => (Some(v.token_type.copy()), v.ptr),
                        _ => (None, None),
                    }
                } else {
                    (None, None)
                }
            },
            None => (None, None),
        },
        _ => (None, None),
    }
}

fn fwd_fn_type(t: &Vec<TableTypes>, idx: usize) -> (r: Option<TokenType>)
    ensures
        opt_canon(r) == (match fwd_fn_entry(tables_view(t@), 0, idx as nat) {
            Some(TableM::Variable(v)) => Some(v.token_type),
            _ => None,
        }),
{
    let ghost tv = tables_view(t@);
    let mut i: usize = 0;
    while i < t.len()
        invariant
            i <= t@.len(),
            tv == tables_view(t@),
            fwd_fn_entry(tv, 0, idx as nat) == fwd_fn_entry(tv, i as nat, idx as nat),
        decreases t@.len() - i,
    {
        assert(tv[i as int] == table_view(t@[i as int]));
        match &t[i] {
            TableTypes::Function(f) => {
                if idx < f.table.len() {
                    assert(tables_view(f.table@)[idx as int] == table_view(f.table@[idx as int]));
                    return match &f.table[idx] {
                        TableTypes::Variable(v) => Some(v.token_type.copy()),
                        _ => None,
                    };
                }
            },
            _ => {},
        }
        i = i + 1;
    }
    None
}

fn fwd_param_type(t: &Vec<TableTypes>, idx: usize) -> (r: Option<TokenType>)
    ensures
        opt_canon(r) == (match fwd_param_entry(tables_view(t@), 0, idx as nat) {
            Some(TableM::Variable(v)) => Some(v.token_type),
            _ => None,
        }),
{
    let ghost tv = tables_view(t@);
    let mut i: usize = 0;
    while i < t.len()
        invariant
            i <= t@.len(),
            tv == tables_view(t@),
            fwd_param_entry(tv, 0, idx as nat) == fwd_param_entry(tv, i as nat, idx as nat),
        decreases t@.len() - i,
    {
        assert(tv[i as int] == table_view(t@[i as int]));
        match &t[i] {
            TableTypes::Function(f) => match &f.parameters {
                Some(p) => {
                    if idx < p.len() {
                        assert(tables_view(p@)[idx as int] == table_view(p@[idx as int]));
                        return match &p[idx] {
                            TableTypes::Variable(v) => Some(v.token_type.copy()),
                            _ => None,
                        };
                    }
                },
                None => {},
            },
            _ => {},
        }
        i = i + 1;
    }
    None
}

fn ptr_ok_exec(expected: Option<PointerType>, actual: Option<PointerType>) -> (r: bool)
    ensures
        r == ptr_ok(expected, actual),
{
    match (expected, actual) {
        (Some(PointerType::Pointer), Some(PointerType::Reference)) => true,
        (None, Some(PointerType::Pointer)) => true,
        (None, None) => true,
        (a, b) => a == b,
    }
}

impl SemanticAnalyzer {
    fn push_error(&mut self, e: Error)
        ensures
            final(self)@ == push_err(old(self)@, e@),
    {
        let ghost before = self.error_messages@;
        self.error_messages.push(e);
        assert(errors_view(self.error_messages@) =~= errors_view(before).push(e@));
    }

    fn declared_type_of(&self, index: &Option<(usize, Scope, ResolveType)>) -> (r: Option<Option<TokenType>>)
        ensures
            match declared_type_of(self@, *index) {
                None => r is None,
                Some(x) => r matches Some(y) && opt_canon(y) == x,
            },
    {
        proof {
            reveal(declared_type_of);
        }
        match index {
            None => Some(None),
            Some((idx, scope, _)) => match scope {
                Scope::Root => {
                    if *idx < self.table.len() {
                        assert(self@.table[*idx as int] == table_view(self.table@[*idx as int]));
                        Some(match &self.table[*idx] {
                            TableTypes::Variable(v) => Some(v.token_type.copy()),
                            _ => None,
                        })
                    } else {
                        Some(None)
                    }
                },
                Scope::Function => Some(fwd_fn_type(&self.table, *idx)),
                Scope::Parameter => Some(fwd_param_type(&self.table, *idx)),
                Scope::EnbedFunc => None,
            },
        }
    }

    fn check_parameters(&mut self, entry: &Entry, n: usize, target: usize) -> (ok: bool)
        requires
            n < usize::MAX,
        ensures
            ok == check_parameters(old(self)@, entry.word@, entry.token, entry.index, n as nat, target) is Some,
            ok ==> final(self)@ == check_parameters(old(self)@, entry.word@, entry.token, entry.index, n as nat, target)->0,
    {
        proof {
            reveal(check_parameters);
        }
        let (et, ep) = expected_param_of(&self.table, target, n);
        let e = match et {
            None => return true,
            Some(e) => e,
        };
        let actual = match entry.token.literal_type() {
            Some(x) => Some(x),
            None => match self.declared_type_of(&entry.index) {
                None => return false,
                Some(a) => a,
            },
        };
        match &actual {
            Some(at) => {
                proof {
                    lemma_tok_eq_canon(*at, e);
                }
                if !at.same(&e) {
                    let msg = arg_mismatch_message(n, &e, at);
                    self.push_error(word_error(&entry.word, msg));
                }
            },
            None => {},
        }
        let ap = self.ptr_type;
        if !ptr_ok_exec(ep, ap) {
            let msg = ptr_mismatch_message(n, ep, ap);
            self.push_error(word_error(&entry.word, msg));
        }
        true
    }
}

/// The tag of an entry's kind, for reading the active table's last entry.
pub open spec fn table_tag(e: TableM) -> u8 {
    match e {
        TableM::Variable(_) => 0,
        TableM::Function(_) => 1,
        TableM::Reasingment(_) => 2,
        TableM::FunctionCall(_) => 3,
        TableM::Conditional(_) => 4,
        TableM::Loop(_) => 5,
        TableM::Return(_) => 6,
        TableM::StructLiteral(_) => 7,
        TableM::Unknown => 8,
    }
}

fn tag_of(e: &TableTypes) -> (r: u8)
    ensures
        r == table_tag(e@),
{
    match e {
        TableTypes::Variable(_) => 0,
        TableTypes::Function(_) => 1,
        TableTypes::Reasingment(_) => 2,
        TableTypes::FunctionCall(_) => 3,
        TableTypes::Conditional(_) => 4,
        TableTypes::Loop(_) => 5,
        TableTypes::Return(_) => 6,
        TableTypes::StructLiteral(_) => 7,
        TableTypes::Unknown => 8,
    }
}

fn new_call_exec(idx: usize, word: &String, scope: Scope) -> (r: FunctionCall)
    ensures
        r@ == new_call(idx, word@, scope),
{
    FunctionCall { target: idx, parameters: None, name: word.clone(), scope }
}

fn caller_on_call_exec(fc: &mut FunctionCall, index: &Option<(usize, Scope, ResolveType)>, word: &String)
    ensures
        final(fc)@ == caller_on_call(old(fc)@, *index, word@),
{
    proof {
        reveal(caller_on_call);
    }
    match index {
        None => {},
        Some((idx, scope, rt)) => match &mut fc.parameters {
            Some(p) => {
                let n = p.len();
                if n == 0 {
                    assert(tables_view(p@).len() == 0);
                    return;
                }
                let ghost before = p@;
                proof {
                    lemma_tables_drop_last(p@);
                }
                let last = p.pop().unwrap();
                let new_last = match last {
                    TableTypes::Reasingment(mut v) => {
                        if *rt == ResolveType::Function {
                            TableTypes::FunctionCall(new_call_exec(*idx, word, *scope))
                        } else {
                            v.target = *idx;
                            v.target_scope = *scope;
                            TableTypes::Reasingment(v)
                        }
                    },
                    other => other,
                };
                proof {
                    lemma_tables_push(p@, new_last);
                    lemma_drop_push(tables_view(before), table_view(new_last));
                }
                p.push(new_last);
            },
            None => {},
        },
    }
}

fn promote_exec(v: &mut Variable, idx: usize, word: &String, scope: Scope)
    ensures
        final(v)@ == promote(old(v)@, idx, word@, scope),
{
    match &mut v.value {
        Some(vals) => {
            let n = vals.len();
            if n == 0 {
                assert(values_view(vals@).len() == 0);
                return;
            }
            assert(values_view(vals@).last() == value_view(vals@.last()));
            if matches!(&vals[n - 1], Value::Var(_)) {
                let ghost before = vals@;
                let nv = Value::FuncCall(new_call_exec(idx, word, scope));
                proof {
                    lemma_values_update(before, n - 1, nv);
                }
                vals.set(n - 1, nv);
            }
        },
        None => {},
    }
}

/// Gives an entry what its last word resolved to; the function and declared
/// type to check a return type against, where there is one.
fn add_caller_info_exec(e: &mut TableTypes, index: &Option<(usize, Scope, ResolveType)>, word: &String) -> (r: Option<(usize, TokenType)>)
    ensures
        final(e)@ == add_caller_info(old(e)@, *index, word@).0,
        match add_caller_info(old(e)@, *index, word@).1 {
            None => r is None,
            Some((i, t)) => r matches Some((j, u)) && j == i && canon(u) == t,
        },
{
    proof {
        reveal(add_caller_info);
    }
    let (idx, scope, rt) = match index {
        None => return None,
        Some(x) => *x,
    };
    let is_func = rt == ResolveType::Function;
    match e {
        TableTypes::FunctionCall(fc) => {
            caller_on_call_exec(fc, index, word);
            None
        },
        TableTypes::Variable(v) => {
            if is_func {
                let t = v.token_type.copy();
                promote_exec(v, idx, word, scope);
                Some((idx, t))
            } else {
                None
            }
        },
        TableTypes::Reasingment(r) => {
            if is_func {
                let call = TableTypes::FunctionCall(new_call_exec(idx, word, scope));
                match &mut r.parameters {
                    Some(p) => {
                        let n = p.len();
                        let ghost before = p@;
                        if n > 0 {
                            proof {
                                lemma_tables_drop_last(p@);
                            }
                            if matches!(&p[n - 1], TableTypes::Reasingment(_)) {
                                proof {
                                    lemma_tables_update(before, n - 1, call);
                                }
                                p.set(n - 1, call);
                            }
                        } else {
                            proof {
                                lemma_tables_push(p@, call);
                            }
                            p.push(call);
                        }
                    },
                    None => {
                        let mut v: Vec<TableTypes> = Vec::new();
                        proof {
                            crate::variable_types::lemma_tables_empty();
                            lemma_tables_push(v@, call);
                        }
                        v.push(call);
                        assert(tables_view(v@) =~= seq![table_view(call)]);
                        r.parameters = Some(v);
                    },
                }
                if !matches!(r.token_type, TokenType::Unknow) {
                    Some((idx, r.token_type.copy()))
                } else {
                    None
                }
            } else {
                None
            }
        },
        TableTypes::Return(ret) => {
            if is_func {
                match &mut ret.value {
                    Some(v) => promote_exec(v, idx, word, scope),
                    None => {},
                }
            }
            None
        },
        _ => None,
    }
}

pub open spec fn opt_values_view(o: Option<Vec<Value>>) -> Option<Seq<ValueM>> {
    match o {
        Some(v) => Some(values_view(v@)),
        None => None,
    }
}

/// Gives the call an entry ends with one more argument, if it ends with one.
fn add_to_pending(e: &mut TableTypes, index: &Option<(usize, Scope, ResolveType)>, word: &String) -> (r: bool)
    ensures
        r == pending_in(old(e)@) is Some,
        r ==> final(e)@ == set_pending(old(e)@, caller_on_call(call_add(pending_in(old(e)@)->0, word@), *index, word@)),
        !r ==> final(e)@ == old(e)@,
{
    proof {
        reveal(set_pending);
    }
    match e {
        TableTypes::Variable(v) => add_to_pending_value(&mut v.value, index, word),
        TableTypes::Reasingment(re) => match &mut re.parameters {
            Some(p) => {
                let n = p.len();
                if n == 0 {
                    assert(tables_view(p@).len() == 0);
                    return false;
                }
                let ghost before = p@;
                proof {
                    lemma_tables_drop_last(p@);
                }
                let last = p.pop().unwrap();
                match last {
                    TableTypes::FunctionCall(mut fc) => {
                        fc.add_arguments(word.clone());
                        caller_on_call_exec(&mut fc, index, word);
                        let x = TableTypes::FunctionCall(fc);
                        proof {
                            lemma_tables_push(p@, x);
                            lemma_drop_push(tables_view(before), table_view(x));
                        }
                        p.push(x);
                        true
                    },
                    other => {
                        proof {
                            lemma_tables_push(p@, other);
                            lemma_drop_push(tables_view(before), table_view(other));
                        }
                        p.push(other);
                        assert(tables_view(p@) =~= tables_view(before));
                        false
                    },
                }
            },
            None => false,
        },
        TableTypes::Return(r) => match &mut r.value {
            Some(v) => add_to_pending_value(&mut v.value, index, word),
            None => false,
        },
        _ => false,
    }
}

fn add_to_pending_value(o: &mut Option<Vec<Value>>, index: &Option<(usize, Scope, ResolveType)>, word: &String) -> (r: bool)
    ensures
        ({
            let vs = opt_values_view(*old(o));
            &&& r == (vs matches Some(s) && s.len() > 0 && s.last() is FuncCall)
            &&& r ==> opt_values_view(*final(o)) == Some(vs->0.update(
                vs->0.len() - 1,
                ValueM::FuncCall(caller_on_call(call_add(vs->0.last()->FuncCall_0, word@), *index, word@)),
            ))
            &&& !r ==> opt_values_view(*final(o)) == vs
        }),
{
    match o {
        Some(vals) => {
            let n = vals.len();
            if n == 0 {
                assert(values_view(vals@).len() == 0);
                return false;
            }
            let ghost before = vals@;
            assert(values_view(vals@).last() == value_view(vals@.last()));
            let last = vals.pop().unwrap();
            match last {
                Value::FuncCall(mut fc) => {
                    fc.add_arguments(word.clone());
                    caller_on_call_exec(&mut fc, index, word);
                    let x = Value::FuncCall(fc);
                    vals.push(x);
                    assert(values_view(vals@) =~= values_view(before).update(n - 1, value_view(x)));
                    true
                },
                other => {
                    vals.push(other);
                    assert(values_view(vals@) =~= values_view(before));
                    false
                },
            }
        },
        None => false,
    }
}

fn mismatch_exec(e: &TableTypes, word: &String, rhs: Option<PointerType>, in_nested: bool) -> (r: Option<(TokenType, TokenType, Option<PointerType>)>)
    ensures
        match mismatch_of(e@, word@, rhs, in_nested) {
            None => r is None,
            Some((a, b, p)) => r matches Some((x, y, q)) && canon(x) == a && canon(y) == b && q == p,
        },
{
    proof {
        reveal(mismatch_of);
    }
    let vt = TokenType::from_str(word.as_str()).literal_type();
    match e {
        TableTypes::Variable(var) => {
            if !in_nested && var.name.is_some() && vt.is_some() {
                let v = vt.unwrap();
                let ok = match var.ptr {
                    Some(PointerType::Pointer) => rhs == Some(PointerType::Reference),
                    _ => true,
                };
                proof {
                    lemma_tok_eq_canon(v, var.token_type);
                }
                if !v.same(&var.token_type) && !ok {
                    return Some((var.token_type.copy(), v, rhs));
                }
            }
            None
        },
        TableTypes::Reasingment(r) => {
            if !in_nested && matches!(r.token_type, TokenType::Unknow) && vt.is_some() {
                let v = vt.unwrap();
                let ok = match r.ptr {
                    Some(PointerType::Reference) => rhs != Some(PointerType::Pointer),
                    None => rhs.is_none(),
                    _ => true,
                };
                proof {
                    lemma_tok_eq_canon(v, r.token_type);
                }
                if !v.same(&r.token_type) && !TokenType::is_operator(r.token_type.copy()) && !ok {
                    return Some((r.token_type.copy(), v, rhs));
                }
            }
            None
        },
        _ => None,
    }
}

fn ptr_value_exec(name: String, p: Option<PointerType>) -> (r: Value)
    ensures
        r@ == ptr_value(name@, p),
{
    match p {
        Some(PointerType::Reference) => Value::Ref(name),
        Some(PointerType::Pointer) => Value::Deref(name),
        None => Value::Var(name),
    }
}

/// Sets the pointer kind of the last parameter of a list, which is an assignment.
fn set_last_ptr(o: &mut Option<Vec<TableTypes>>, p: Option<PointerType>) -> (done: bool)
    ensures
        done == (last_reas(opt_tables_view(*old(o))) is Some),
        done ==> opt_tables_view(*final(o)) == set_last_param(
            opt_tables_view(*old(o)),
            TableM::Reasingment(ReasM { ptr: p, ..last_reas(opt_tables_view(*old(o)))->0 }),
        ),
        !done ==> opt_tables_view(*final(o)) == opt_tables_view(*old(o)),
{
    match o {
        Some(ps) => {
            let n = ps.len();
            if n == 0 {
                assert(tables_view(ps@).len() == 0);
                return false;
            }
            let ghost before = ps@;
            proof {
                lemma_tables_drop_last(ps@);
            }
            let mut e = ps.pop().unwrap();
            let done = match &mut e {
                TableTypes::Reasingment(r) => {
                    r.ptr = p;
                    true
                },
                _ => false,
            };
            proof {
                lemma_tables_push(ps@, e);
                lemma_drop_push(tables_view(before), table_view(e));
            }
            ps.push(e);
            if !done {
                assert(tables_view(ps@) =~= tables_view(before));
            }
            done
        },
        None => false,
    }
}

impl SemanticAnalyzer {
    /// Puts back the active table taken from `before` unchanged.
    fn restore_last(&mut self, path: Vec<Step>, t: Vec<TableTypes>, last: Option<TableTypes>, Ghost(before): Ghost<SemM>)
        requires
            path@ == active(before),
            old(self)@ == (SemM { table: set_path(before.table, active(before), seq![]), ..before }),
            match act_last(before) {
                None => last is None && tables_view(t@) == act(before),
                Some(e) => last matches Some(x) && x@ == e && tables_view(t@) == act(before).drop_last(),
            },
        ensures
            final(self)@ == touch(before),
    {
        match last {
            Some(e) => {
                self.put_last(path, t, Some(e), Ghost(before));
                assert(act(before).update(act(before).len() - 1, act(before).last()) =~= act(before));
            },
            None => {
                self.put_last(path, t, None, Ghost(before));
            },
        }
    }

    /// The kind of the active table's last entry.
    fn peek_last_tag(&mut self) -> (r: Option<u8>)
        ensures
            match act_last(old(self)@) {
                None => r is None,
                Some(e) => r == Some(table_tag(e)),
            },
            final(self)@ == touch(old(self)@),
    {
        let ghost s0 = self@;
        let (path, t, last) = self.take_last();
        let r = match &last {
            Some(e) => Some(tag_of(e)),
            None => None,
        };
        self.restore_last(path, t, last, Ghost(s0));
        r
    }

    fn check_func_return_type(&mut self, func_idx: usize, expected_type: &TokenType, word: &Word)
        ensures
            final(self)@ == check_return_type(old(self)@, func_idx, canon(*expected_type), word@),
    {
        proof {
            reveal(check_return_type);
        }
        if func_idx >= self.table.len() {
            return;
        }
        assert(self@.table[func_idx as int] == table_view(self.table@[func_idx as int]));
        let ret = match &self.table[func_idx] {
            TableTypes::Function(f) => match &f.return_type {
                Some(rt) => Some(rt.copy()),
                None => None,
            },
            _ => None,
        };
        match ret {
            Some(rt) => {
                proof {
                    lemma_tok_eq_canon(rt, *expected_type);
                }
                if !rt.same(expected_type) {
                    let msg = return_mismatch_message(expected_type, &word.word, &rt);
                    self.push_error(word_error(word, msg));
                }
            },
            None => {},
        }
    }

    fn add_pointer_info(&mut self)
        ensures
            final(self)@ == add_pointer_info(old(self)@),
    {
        proof {
            reveal(add_pointer_info);
        }
        let p = self.ptr_type;
        let ghost s0 = self@;
        let (path, t, last) = self.take_last();
        match last {
            Some(mut e) => {
                let ghost e0 = e@;
                let done = match &mut e {
                    TableTypes::Variable(var) => match &mut var.value {
                        Some(vals) => {
                            let n = vals.len();
                            if n == 0 {
                                assert(values_view(vals@).len() == 0);
                                false
                            } else {
                                assert(values_view(vals@).last() == value_view(vals@.last()));
                                let ghost before = vals@;
                                let nv = match &vals[n - 1] {
                                    Value::Var(name) => Some(ptr_value_exec(name.clone(), p)),
                                    _ => None,
                                };
                                match nv {
                                    Some(x) => {
                                        proof {
                                            lemma_values_update(before, n - 1, x);
                                        }
                                        vals.set(n - 1, x);
                                        true
                                    },
                                    None => false,
                                }
                            }
                        },
                        None => false,
                    },
                    TableTypes::Reasingment(r) => set_last_ptr(&mut r.parameters, p),
                    TableTypes::FunctionCall(fc) => set_last_ptr(&mut fc.parameters, p),
                    _ => false,
                };
                self.put_last(path, t, Some(e), Ghost(s0));
                if !done {
                    assert(act(s0).update(act(s0).len() - 1, e0) =~= act(s0));
                }
            },
            None => {
                self.put_last(path, t, None, Ghost(s0));
            },
        }
    }

    fn handle_argument_tail(&mut self, entry: &Entry, in_nested: bool)
        ensures
            final(self)@ == handle_argument_tail(old(self)@, entry.word@, entry.index, in_nested),
    {
        proof {
            reveal(handle_argument_tail);
        }
        let rhs = self.ptr_type;
        let ghost s0 = self@;
        let (path, t, last) = self.take_last();
        let had_last = last.is_some();
        let mm = match &last {
            Some(e) => mismatch_exec(e, &entry.word.word, rhs, in_nested),
            None => None,
        };
        self.restore_last(path, t, last, Ghost(s0));
        if !had_last {
            self.push_error(word_error(&entry.word, lit_chars("There wasn't a last entry")));
            return;
        }
        match mm {
            Some((exp, found, p)) => {
                let msg = mismatch_message(p, &exp, &found);
                self.push_error(word_error(&entry.word, msg));
            },
            None => {},
        }
        let ghost s2 = self@;
        let (path, t, last) = self.take_last();
        match last {
            None => {
                self.put_last(path, t, None, Ghost(s2));
                self.push_error(word_error(&entry.word, lit_chars("There wasn't a last entry")));
            },
            Some(mut ne) => {
                if in_nested {
                    if add_to_pending(&mut ne, &entry.index, &entry.word.word) {
                        self.put_last(path, t, Some(ne), Ghost(s2));
                        return;
                    }
                }
                ne.add_arguments(entry.word.word.clone());
                let ret = add_caller_info_exec(&mut ne, &entry.index, &entry.word.word);
                self.put_last(path, t, Some(ne), Ghost(s2));
                match ret {
                    Some((idx, et)) => self.check_func_return_type(idx, &et, &entry.word),
                    None => {},
                }
                self.add_pointer_info();
            },
        }
    }

    fn handle_argument_rest(
        &mut self,
        entry: &Entry,
        in_reas: bool,
        in_fc: bool,
        in_nested: bool,
        expected: usize,
        fc_len: usize,
        fc_target: usize,
    ) -> (ok: bool)
        ensures
            ok == handle_argument_rest(old(self)@, entry.word@, entry.token, entry.index, in_reas, in_fc, in_nested,
                expected as nat, fc_len as nat, fc_target) is Some,
            ok ==> final(self)@ == handle_argument_rest(old(self)@, entry.word@, entry.token, entry.index, in_reas, in_fc,
                in_nested, expected as nat, fc_len as nat, fc_target)->0,
    {
        proof {
            reveal(handle_argument_rest);
        }
        let inc = matches!(entry.token, TokenType::PlusPlus | TokenType::MinusMinus);
        if inc {
            self.set_value = false;
        } else {
            self.set_value = self.set_value && TokenType::is_operator(entry.token.copy());
        }
        if in_fc || in_nested {
            if fc_len >= expected {
                if fc_len == usize::MAX {
                    return false;
                }
                let msg = too_many_message(expected, fc_len);
                self.push_error(word_error(&entry.word, msg));
            } else {
                if !self.check_parameters(entry, fc_len, fc_target) {
                    return false;
                }
            }
        }
        if (in_reas || in_fc || in_nested) && matches!(entry.token, TokenType::Unknow) && entry.index.is_none() {
            let msg = undefined_message(&entry.word.word);
            self.push_error(word_error(&entry.word, msg));
        }
        self.handle_argument_tail(entry, in_nested);
        true
    }

    fn start_struct_init(&mut self) -> (done: bool)
        ensures
            done == struct_init(old(self)@) is Some,
            done ==> final(self)@ == struct_init(old(self)@)->0,
            !done ==> final(self)@ == touch(old(self)@),
    {
        proof {
            reveal(struct_init);
        }
        let ghost s1 = self@;
        let (path, t, last) = self.take_last();
        let inst: Option<String> = match &last {
            Some(TableTypes::Variable(v)) => v.name.clone(),
            Some(TableTypes::Reasingment(r)) => Some(r.name.clone()),
            _ => None,
        };
        self.restore_last(path, t, last, Ghost(s1));
        match inst {
            Some(name) => {
                self.current_struct_init = Some(name);
                self.set_value = false;
                let tag = self.peek_last_tag();
                if tag == Some(2u8) {
                    let ghost s4 = self@;
                    let (path, mut t) = self.take_active();
                    if t.len() > 0 {
                        proof {
                            lemma_tables_drop_last(t@);
                        }
                        t.pop();
                    }
                    self.put_active(path, t, Ghost(s4));
                }
                true
            },
            None => false,
        }
    }

    fn handle_argument(
        &mut self,
        entry: Entry,
        in_reas: bool,
        in_fc: bool,
        in_nested: bool,
        expected: usize,
        fc_len: usize,
        fc_target: usize,
    ) -> (ok: bool)
        ensures
            ok == handle_argument(old(self)@, entry.word@, entry.token, entry.index, in_reas, in_fc, in_nested,
                expected as nat, fc_len as nat, fc_target) is Some,
            ok ==> final(self)@ == handle_argument(old(self)@, entry.word@, entry.token, entry.index, in_reas, in_fc,
                in_nested, expected as nat, fc_len as nat, fc_target)->0,
    {
        proof {
            reveal(handle_argument);
        }
        self.set_return_value = false;
        self.acces_var = false;
        let is_struct = match entry.index {
            Some((_, _, rt)) => rt == ResolveType::Struct,
            None => false,
        };
        if is_struct {
            if self.start_struct_init() {
                return true;
            }
        }
        self.handle_argument_rest(&entry, in_reas, in_fc, in_nested, expected, fc_len, fc_target)
    }

    fn handle_new_entry(&mut self, entry: Entry) -> (ok: bool)
        ensures
            ok == handle_new_entry(old(self)@, entry.word@, entry.token, entry.index) is Some,
            ok ==> final(self)@ == handle_new_entry(old(self)@, entry.word@, entry.token, entry.index)->0,
    {
        proof {
            reveal(handle_new_entry);
        }
        if !TokenType::is_value(entry.token.copy()) {
            self.add_entry(entry.token);
            return true;
        }
        match entry.index {
            Some((idx, scope, rt)) => {
                self.set_value = true;
                if rt == ResolveType::Function {
                    let call = TableTypes::FunctionCall(new_call_exec(idx, &entry.word.word, scope));
                    let ghost s1 = self@;
                    let (path, mut t) = self.take_active();
                    proof {
                        lemma_tables_push(t@, call);
                    }
                    t.push(call);
                    self.put_active(path, t, Ghost(s1));
                } else if rt == ResolveType::Struct {
                    let ghost w = entry.word.word@;
                    proof {
                        let x = entry.word.word;
                        assert(exists|y: String| y@ == w) by {
                            assert(x@ == w);
                        }
                        assert(str_canon(w)@ == w);
                        assert(canon(TokenType::StructDef(str_canon(w))) == canon(TokenType::StructDef(x)));
                        reveal(add_entry);
                        assert(table_new(TokenType::StructDef(str_canon(w))) == table_new(TokenType::StructDef(x)));
                        assert(add_entry(self@, TokenType::StructDef(str_canon(w))) == add_entry(self@, TokenType::StructDef(x)));
                    }
                    self.add_entry(TokenType::StructDef(entry.word.word));
                } else if scope == Scope::EnbedFunc {
                    return false;
                } else {
                    let tt = target_type_of(&self.table, idx, scope);
                    let (name, ai) = match crate::variable_types::parse_array_syntax(entry.word.word.as_str()) {
                        Some((n, i)) => (n, Some(i)),
                        None => (entry.word.word, None),
                    };
                    let r = Reasingment {
                        target: idx,
                        target_scope: scope,
                        parameters: None,
                        name,
                        token_type: tt,
                        ptr: self.ptr_type,
                        array_index: ai,
                    };
                    let e = TableTypes::Reasingment(r);
                    let ghost s1 = self@;
                    let (path, mut t) = self.take_active();
                    proof {
                        lemma_tables_push(t@, e);
                    }
                    t.push(e);
                    self.put_active(path, t, Ghost(s1));
                }
                true
            },
            None => match &self.current_struct_init {
                Some(inst) => {
                    let ic = chars_of(inst.as_str());
                    let mangled = mangle_of(&ic, &entry.word.word);
                    let (target, sc) = match self.resolve_name(ic.as_slice()) {
                        Some((i, sc, _)) => (i, sc),
                        None => (0usize, Scope::Root),
                    };
                    let r = Reasingment {
                        target,
                        target_scope: sc,
                        parameters: None,
                        name: mangled,
                        token_type: TokenType::Unknow,
                        ptr: self.ptr_type,
                        array_index: None,
                    };
                    let e = TableTypes::Reasingment(r);
                    let ghost s1 = self@;
                    let (path, mut t) = self.take_active();
                    proof {
                        lemma_tables_push(t@, e);
                    }
                    t.push(e);
                    self.put_active(path, t, Ghost(s1));
                    self.set_value = true;
                    true
                },
                None => {
                    let msg = undefined_message(&entry.word.word);
                    self.push_error(word_error(&entry.word, msg));
                    true
                },
            },
        }
    }
}

pub open spec fn opt_table_view(o: Option<TableTypes>) -> Option<TableM> {
    match o {
        Some(e) => Some(e@),
        None => None,
    }
}

fn len_of(o: &Option<Vec<TableTypes>>) -> (r: usize)
    ensures
        r as nat == len_or_zero(opt_tables_view(*o)),
{
    match o {
        Some(p) => p.len(),
        None => 0,
    }
}

fn pending_call_of(e: &TableTypes) -> (r: Option<&FunctionCall>)
    ensures
        match pending_in(e@) {
            None => r is None,
            Some(c) => r matches Some(fc) && fc@ == c,
        },
{
    match e {
        TableTypes::Variable(v) => v.pending_call(),
        TableTypes::Reasingment(re) => match &re.parameters {
            Some(p) => {
                if p.len() == 0 {
                    assert(tables_view(p@).len() == 0);
                    return None;
                }
                proof {
                    lemma_tables_drop_last(p@);
                }
                match &p[p.len() - 1] {
                    TableTypes::FunctionCall(fc) => Some(fc),
                    _ => None,
                }
            },
            None => None,
        },
        TableTypes::Return(r) => match &r.value {
            Some(v) => v.pending_call(),
            None => None,
        },
        _ => None,
    }
}

fn call_context_of(e: &Option<TableTypes>, dp: bool) -> (r: (bool, bool, usize, Scope, usize))
    ensures
        ({
            let c = call_context(opt_table_view(*e), dp);
            r.0 == c.0 && r.1 == c.1 && r.2 == c.2 && r.3 == c.3 && r.4 as nat == c.4
        }),
{
    proof {
        reveal(call_context);
    }
    match e {
        Some(TableTypes::FunctionCall(fc)) => {
            if dp {
                (true, false, fc.target, fc.scope, len_of(&fc.parameters))
            } else {
                (false, false, 0, Scope::Root, 0)
            }
        },
        Some(x) => {
            match x {
                TableTypes::Variable(_) | TableTypes::Return(_) => {
                    if dp {
                        match pending_call_of(x) {
                            Some(p) => (false, true, p.target, Scope::Root, len_of(&p.parameters)),
                            None => (false, false, 0, Scope::Root, 0),
                        }
                    } else {
                        (false, false, 0, Scope::Root, 0)
                    }
                },
                _ => (false, false, 0, Scope::Root, 0),
            }
        },
        None => (false, false, 0, Scope::Root, 0),
    }
}

fn remove_char_of(s: &Vec<char>, c: char) -> (r: Vec<char>)
    ensures
        r@ == remove_char(s@, c),
{
    let mut r: Vec<char> = Vec::new();
    let mut i: usize = 0;
    while i < s.len()
        invariant
            i <= s@.len(),
            r@ == remove_char(s@.take(i as int), c),
        decreases s@.len() - i,
    {
        assert(s@.take(i + 1).drop_last() =~= s@.take(i as int));
        if s[i] != c {
            r.push(s[i]);
        }
        i = i + 1;
    }
    assert(s@.take(s@.len() as int) =~= s@);
    r
}

impl SemanticAnalyzer {
    fn expected_args(&self, target: usize, scope: Scope) -> (r: Option<usize>)
        ensures
            match expected_args(self@, target, scope) {
                None => r is None,
                Some(n) => r matches Some(m) && m as nat == n,
            },
    {
        proof {
            reveal(expected_args);
        }
        if scope == Scope::EnbedFunc {
            if target < 5 {
                return Some(1);
            }
            return None;
        }
        if target >= self.table.len() {
            return Some(0);
        }
        assert(self@.table[target as int] == table_view(self.table@[target as int]));
        match &self.table[target] {
            TableTypes::Function(f) => Some(len_of(&f.parameters)),
            _ => Some(0),
        }
    }

    fn tokenize_value(&mut self, word: Word, token: TokenType) -> (ok: bool)
        ensures
            ok == tokenize_value(old(self)@, word@, token) is Some,
            ok ==> final(self)@ == tokenize_value(old(self)@, word@, token)->0,
    {
        proof {
            reveal(tokenize_value);
        }
        let wc = chars_of(word.word.as_str());
        let index = self.resolve(wc.as_slice());
        let ghost s0 = self@;
        let (path, t, last) = self.take_last();
        let finished0 = match &last {
            Some(e) => e.finished_definition(),
            None => true,
        };
        self.restore_last(path, t, last, Ghost(s0));
        let ghost s1 = self@;
        let (path, t, last) = self.take_last();
        let (is_fc, in_nested, fc_target, fc_scope, fc_len) = call_context_of(&last, self.defining_parameters);
        self.restore_last(path, t, last, Ghost(s1));
        let expected = if is_fc || in_nested {
            match self.expected_args(fc_target, fc_scope) {
                Some(e) => e,
                None => return false,
            }
        } else {
            0
        };
        let last_finished = if is_fc || in_nested { false } else { finished0 };
        let t2 = self.peek_last_tag();
        let in_reas = t2 == Some(2u8);
        let t3 = self.peek_last_tag();
        let in_fc = t3 == Some(3u8) && self.defining_parameters;
        let t4 = self.peek_last_tag();
        let in_cond = t4 == Some(4u8);
        let in_call = (in_reas || in_fc || in_cond || in_nested) && !last_finished;
        let entry = Entry { word, token, index };
        if !last_finished || self.set_value || self.set_return_value || in_call {
            self.handle_argument(entry, in_reas, in_fc, in_nested, expected, fc_len, fc_target)
        } else {
            self.handle_new_entry(entry)
        }
    }

    fn tokenize_word(&mut self, word: Word) -> (ok: bool)
        ensures
            ok == tokenize_word(old(self)@, word@) is Some,
            ok ==> final(self)@ == tokenize_word(old(self)@, word@)->0,
    {
        proof {
            reveal(tokenize_word);
        }
        let chars = chars_of(word.word.as_str());
        let whole_op = TokenType::is_operator(TokenType::from_chars(chars.as_slice()));
        let (ptr, wchars) = if chars.len() > 0 && chars[0] == '&' && !whole_op {
            (Some(PointerType::Reference), remove_char_of(&chars, '&'))
        } else if chars.len() > 0 && chars[0] == '*' && !whole_op {
            (Some(PointerType::Pointer), remove_char_of(&chars, '*'))
        } else {
            (None, chars)
        };
        let w1 = Word { word: string_from(wchars.as_slice()), line: word.line, char_num: word.char_num };
        let token = TokenType::from_chars(wchars.as_slice());
        self.ptr_type = ptr;
        self.set_value = self.set_value || TokenType::is_operator(token.copy());
        match token {
            TokenType::Equals => return true,
            TokenType::ReturnType => {
                self.set_return_value = true;
                return true;
            },
            TokenType::Dots => {
                let inst = self.find_preceding_instance_name();
                self.struct_instance_name = inst;
                self.acces_var = true;
                return true;
            },
            _ => {},
        }
        if self.acces_var {
            self.acces_var = false;
            self.access_field(&w1);
            return true;
        }
        self.tokenize_value(w1, token)
    }
}

// ---------------------------------------------------------------------------
// Lines and blocks.

pub open spec fn prefix_norm(acc: Seq<WordM>, n: Norm) -> Norm {
    match n {
        Norm::Words(r) => Norm::Words(acc + r),
        other => other,
    }
}

pub open spec fn opt_prefix(acc: Seq<WordM>, o: Option<Seq<WordM>>) -> Option<Seq<WordM>> {
    match o {
        Some(r) => Some(acc + r),
        None => None,
    }
}

pub open spec fn parts_view(v: Seq<Vec<char>>) -> Seq<Seq<char>> {
    Seq::new(v.len(), |i: int| v[i]@)
}

/// What normalizing a line gives.
enum NormResult {
    Words(Vec<Word>),
    Empty,
    Overflow,
}

fn copy_word(w: &Word) -> (r: Word)
    ensures
        r@ == w@,
{
    Word { word: w.word.clone(), line: w.line, char_num: w.char_num }
}

fn chars_is(a: &[char], lit: &str) -> (r: bool)
    ensures
        r == (a@ == lit@),
{
    let l = chars_of(lit);
    chars_eq(a, l.as_slice())
}

fn char_utf8_len(c: char) -> (r: usize)
    ensures
        r as nat == utf8_len_char(c),
{
    let u = c as u32;
    if u < 0x80 {
        1
    } else if u < 0x800 {
        2
    } else if u < 0x10000 {
        3
    } else {
        4
    }
}

pub proof fn lemma_utf8_mono(s: Seq<char>, i: int)
    requires
        0 <= i <= s.len(),
    ensures
        utf8_len(s.take(i)) <= utf8_len(s),
    decreases s.len(),
{
    if i < s.len() {
        assert(s.drop_last().take(i) =~= s.take(i));
        lemma_utf8_mono(s.drop_last(), i);
    } else {
        assert(s.take(i) =~= s);
    }
}

/// `base` plus the UTF-8 length of `s`, where it fits.
fn add_utf8_len(s: &Vec<char>, base: usize) -> (r: Option<usize>)
    ensures
        match r {
            Some(x) => x as nat == base + utf8_len(s@),
            None => base + utf8_len(s@) > usize::MAX,
        },
{
    let mut c = base;
    let mut i: usize = 0;
    while i < s.len()
        invariant
            i <= s@.len(),
            c as nat == base + utf8_len(s@.take(i as int)),
        decreases s@.len() - i,
    {
        assert(s@.take(i + 1).drop_last() =~= s@.take(i as int));
        let l = char_utf8_len(s[i]);
        if c > usize::MAX - l {
            proof {
                lemma_utf8_mono(s@, i + 1);
            }
            return None;
        }
        c = c + l;
        i = i + 1;
    }
    assert(s@.take(s@.len() as int) =~= s@);
    Some(c)
}

fn find_dc(s: &Vec<char>, start: usize) -> (r: Option<usize>)
    ensures
        r matches Some(j) ==> first_dc(s@, start as nat) == Some(j as nat),
        r is None ==> first_dc(s@, start as nat) is None,
{
    let mut i = start;
    while i < s.len() && i + 1 < s.len()
        invariant
            start <= i,
            first_dc(s@, start as nat) == first_dc(s@, i as nat),
        decreases s@.len() - i,
    {
        if s[i] == ':' && s[i + 1] == ':' {
            return Some(i);
        }
        i = i + 1;
    }
    None
}

fn split_dc_of(s: &Vec<char>) -> (r: Vec<Vec<char>>)
    ensures
        parts_view(r@) == split_dc(s@),
{
    let mut out: Vec<Vec<char>> = Vec::new();
    let mut start: usize = 0;
    assert(parts_view(out@) =~= seq![]);
    loop
        invariant
            start <= s@.len(),
            split_dc(s@) == parts_view(out@) + split_from(s@, start as nat),
        decreases s@.len() - start,
    {
        let f = find_dc(s, start);
        proof {
            lemma_first_dc(s@, start as nat);
        }
        match f {
            None => {
                assert(first_dc(s@, start as nat) is None);
                let last = slice_range_of(s, start, s.len());
                assert(last@ =~= s@.skip(start as int));
                let ghost before = out@;
                out.push(last);
                assert(parts_view(out@) =~= parts_view(before) + seq![last@]);
                assert(split_from(s@, start as nat) == seq![s@.skip(start as int)]);
                assert(parts_view(out@) + seq![] =~= parts_view(out@));
                return out;
            },
            Some(j) => {
                assert(first_dc(s@, start as nat) == Some(j as nat));
                assert(start <= j && j + 1 < s@.len());
                let part = slice_range_of(s, start, j);
                let ghost before = out@;
                out.push(part);
                assert(parts_view(out@) =~= parts_view(before) + seq![part@]);
                assert(split_from(s@, start as nat) == seq![s@.subrange(start as int, j as int)] + split_from(s@, (j + 2) as nat));
                assert(parts_view(before) + split_from(s@, start as nat) =~= parts_view(out@) + split_from(s@, (j + 2) as nat));
                let n = s.len();
                assert(j + 1 < n);
                start = j + 2;
            },
        }
    }
}

fn slice_range_of(s: &Vec<char>, lo: usize, hi: usize) -> (r: Vec<char>)
    requires
        lo <= hi <= s@.len(),
    ensures
        r@ == s@.subrange(lo as int, hi as int),
{
    crate::text::slice_range(s.as_slice(), lo, hi)
}

fn dc_word(line: Option<usize>, char_num: usize) -> (r: Word)
    ensures
        r@ == (WordM { word: "::"@, line, char_num: Some(char_num) }),
{
    Word { word: string_from(lit_chars("::").as_slice()), line, char_num: Some(char_num) }
}

fn split_words_of(w: &Word, parts: &Vec<Vec<char>>) -> (r: Option<Vec<Word>>)
    ensures
        match split_words(w@, parts_view(parts@), 0, 0) {
            None => r is None,
            Some(ws) => r matches Some(v) && words_view(v@) == ws,
        },
{
    proof {
        reveal(split_words);
    }
    let ghost pv = parts_view(parts@);
    let cn: usize = match w.char_num {
        Some(c) => c,
        None => 0,
    };
    let mut out: Vec<Word> = Vec::new();
    let mut count: usize = 0;
    let mut k: usize = 0;
    while k < parts.len()
        invariant
            k <= parts@.len(),
            pv == parts_view(parts@),
            cn as nat == (match w@.char_num {
                Some(c) => c as nat,
                None => 0nat,
            }),
            split_words(w@, pv, 0, 0) == opt_prefix(words_view(out@), split_words(w@, pv, k as nat, count as nat)),
        decreases parts@.len() - k,
    {
        proof {
            reveal(split_words);
        }
        let part = &parts[k];
        assert(pv[k as int] == part@);
        if cn > usize::MAX - count {
            return None;
        }
        let count2 = match add_utf8_len(part, count) {
            Some(c) => c,
            None => return None,
        };
        let pw = Word { word: string_from(part.as_slice()), line: w.line, char_num: Some(cn + count) };
        let ghost before = out@;
        if k + 1 < parts.len() {
            if cn > usize::MAX - count2 || count2 > usize::MAX - 2 {
                return None;
            }
            let dw = dc_word(w.line, cn + count2);
            out.push(pw);
            out.push(dw);
            assert(words_view(out@) =~= words_view(before) + seq![pw@, dw@]);
            count = count2 + 2;
        } else {
            out.push(pw);
            assert(words_view(out@) =~= words_view(before) + seq![pw@]);
            count = count2;
        }
        k = k + 1;
    }
    assert(words_view(out@) + seq![] =~= words_view(out@));
    Some(out)
}

fn expand_word_of(w: &Word) -> (r: Option<Vec<Word>>)
    ensures
        match expand_word(w@) {
            None => r is None,
            Some(ws) => r matches Some(v) && words_view(v@) == ws,
        },
{
    proof {
        reveal(expand_word);
    }
    let wd = chars_of(w.word.as_str());
    let n = wd.len();
    if n > 2 && wd[n - 2] == '+' && wd[n - 1] == '+' {
        let base = slice_range_of(&wd, 0, n - 2);
        assert(base@ =~= wd@.take(n - 2));
        let mut v: Vec<Word> = Vec::new();
        v.push(Word { word: string_from(base.as_slice()), line: w.line, char_num: w.char_num });
        v.push(Word { word: string_from(lit_chars("++").as_slice()), line: w.line, char_num: w.char_num });
        assert(words_view(v@) =~= seq![v@[0]@, v@[1]@]);
        return Some(v);
    }
    if n > 2 && wd[n - 2] == '-' && wd[n - 1] == '-' {
        let base = slice_range_of(&wd, 0, n - 2);
        assert(base@ =~= wd@.take(n - 2));
        let mut v: Vec<Word> = Vec::new();
        v.push(Word { word: string_from(base.as_slice()), line: w.line, char_num: w.char_num });
        v.push(Word { word: string_from(lit_chars("--").as_slice()), line: w.line, char_num: w.char_num });
        assert(words_view(v@) =~= seq![v@[0]@, v@[1]@]);
        return Some(v);
    }
    let parts = split_dc_of(&wd);
    split_words_of(w, &parts)
}

fn index_word(w: &Word) -> (r: bool)
    ensures
        r == (w@.word.len() > 0 && w@.word[0] == '[' && w@.word.last() == ']'),
{
    let nw = chars_of(w.word.as_str());
    nw.len() > 0 && nw[0] == '[' && nw[nw.len() - 1] == ']'
}

pub proof fn lemma_prefix_norm(a: Seq<WordM>, b: Seq<WordM>, n: Norm)
    ensures
        prefix_norm(a, prefix_norm(b, n)) == prefix_norm(a + b, n),
{
    match n {
        Norm::Words(r) => {
            assert(a + (b + r) =~= (a + b) + r);
        },
        _ => {},
    }
}

fn normalize_line(line: &Vec<Word>) -> (r: NormResult)
    ensures
        match normalize(words_view(line@), 0) {
            Norm::Words(ws) => r matches NormResult::Words(v) && words_view(v@) == ws,
            Norm::Empty => r is Empty,
            Norm::Overflow => r is Overflow,
        },
{
    let ghost lv = words_view(line@);
    let mut out: Vec<Word> = Vec::new();
    let mut i: usize = 0;
    let n = line.len();
    assert(words_view(out@) =~= seq![]);
    while i < n
        invariant
            n == line@.len(),
            i <= n,
            lv == words_view(line@),
            normalize(lv, 0) == prefix_norm(words_view(out@), normalize(lv, i as nat)),
        decreases n - i,
    {
        assert(lv[i as int] == line@[i as int]@);
        let w0 = &line[i];
        let mut wd = chars_of(w0.word.as_str());
        let m = wd.len();
        if m > 1 && wd[m - 1] == ',' && wd[0] != '"' {
            wd.pop();
        }
        if chars_is(wd.as_slice(), ",") || chars_is(wd.as_slice(), "{") || chars_is(wd.as_slice(), "}") {
            i = i + 1;
            continue;
        }
        let next: usize;
        if n > 3 && i < n - 3 && chars_is(chars_of(line[i + 1].word.as_str()).as_slice(), "[")
            && chars_is(chars_of(line[i + 3].word.as_str()).as_slice(), "]") {
            assert(lv[i + 1] == line@[i + 1]@ && lv[i + 2] == line@[i + 2]@ && lv[i + 3] == line@[i + 3]@);
            push_all(&mut wd, lit_chars("[").as_slice());
            push_all(&mut wd, chars_of(line[i + 2].word.as_str()).as_slice());
            push_all(&mut wd, lit_chars("]").as_slice());
            next = i + 4;
        } else if i + 1 < n && index_word(&line[i + 1]) {
            assert(lv[i + 1] == line@[i + 1]@);
            push_all(&mut wd, chars_of(line[i + 1].word.as_str()).as_slice());
            next = i + 2;
        } else {
            next = i + 1;
        }
        if wd.len() == 0 {
            return NormResult::Empty;
        }
        let w = Word { word: string_from(wd.as_slice()), line: w0.line, char_num: w0.char_num };
        match expand_word_of(&w) {
            None => return NormResult::Overflow,
            Some(mut ws) => {
                let ghost before = words_view(out@);
                let ghost added = words_view(ws@);
                out.append(&mut ws);
                assert(words_view(out@) =~= before + added);
                proof {
                    lemma_prefix_norm(before, added, normalize(lv, next as nat));
                }
            },
        }
        i = next;
    }
    assert(words_view(out@) + seq![] =~= words_view(out@));
    NormResult::Words(out)
}

impl SemanticAnalyzer {
    /// Reads one line: its words normalized (`normalize`), then each read in
    /// turn; `false` where the analysis cannot go on.
    pub fn tokenize_line(&mut self, line: &Vec<Word>) -> (ok: bool)
        ensures
            ok == tokenize_line(old(self)@, words_view(line@)) is Some,
            ok ==> final(self)@ == tokenize_line(old(self)@, words_view(line@))->0,
    {
        let ws = match normalize_line(line) {
            NormResult::Overflow => return false,
            NormResult::Empty => return true,
            NormResult::Words(ws) => ws,
        };
        let ghost wv = words_view(ws@);
        let ghost s0 = self@;
        let mut k: usize = 0;
        while k < ws.len()
            invariant
                k <= ws@.len(),
                wv == words_view(ws@),
                s0 == old(self)@,
                normalize(words_view(line@), 0) == Norm::Words(wv),
                tokenize_words(s0, wv, 0) == tokenize_words(self@, wv, k as nat),
            decreases ws@.len() - k,
        {
            assert(wv[k as int] == ws@[k as int]@);
            let ghost sk = self@;
            if !self.tokenize_word(copy_word(&ws[k])) {
                assert(tokenize_words(sk, wv, k as nat) is None);
                return false;
            }
            k = k + 1;
        }
        true
    }

    fn tokenize_lines(&mut self, ls: &Vec<Vec<Word>>) -> (ok: bool)
        ensures
            ok == tokenize_lines(old(self)@, lines_view(ls@), 0) is Some,
            ok ==> final(self)@ == tokenize_lines(old(self)@, lines_view(ls@), 0)->0,
    {
        let ghost lv = lines_view(ls@);
        let ghost s0 = self@;
        let mut k: usize = 0;
        while k < ls.len()
            invariant
                k <= ls@.len(),
                lv == lines_view(ls@),
                s0 == old(self)@,
                tokenize_lines(s0, lv, 0) == tokenize_lines(self@, lv, k as nat),
            decreases ls@.len() - k,
        {
            assert(lv[k as int] == words_view(ls@[k as int]@));
            let ghost sk = self@;
            if !self.tokenize_line(&ls[k]) {
                assert(tokenize_lines(sk, lv, k as nat) is None);
                return false;
            }
            k = k + 1;
        }
        true
    }

    fn analyze_one(&mut self, b: &Block) -> (ok: bool)
        ensures
            ok == analyze_one(old(self)@, b@) is Some,
            ok ==> final(self)@ == analyze_one(old(self)@, b@)->0,
        decreases b,
    {
        match b {
            Block::Word(w) => self.tokenize_word(copy_word(w)),
            Block::Line(ws) => self.tokenize_line(ws),
            Block::Multiple(ls) => self.tokenize_lines(ls),
            Block::Collection(inner) => {
                let tag = self.peek_last_tag();
                let last_is_fn = tag == Some(1u8);
                if self.max_nesting == usize::MAX {
                    return false;
                }
                self.max_nesting = self.max_nesting + 1;
                if last_is_fn && !self.defining_fn {
                    self.defining_fn = true;
                    if !self.analyze_blocks(inner) {
                        return false;
                    }
                    self.defining_fn = false;
                } else {
                    if !self.analyze_blocks(inner) {
                        return false;
                    }
                }
                if self.max_nesting == 0 {
                    return false;
                }
                self.max_nesting = self.max_nesting - 1;
                self.current_struct_init = None;
                true
            },
            Block::Parameter(inner) => {
                let prev = self.defining_fn;
                self.defining_fn = true;
                self.defining_parameters = true;
                if !self.analyze_blocks(inner) {
                    return false;
                }
                self.defining_parameters = false;
                self.defining_fn = prev;
                true
            },
        }
    }

    fn analyze_blocks(&mut self, bs: &Vec<Block>) -> (ok: bool)
        ensures
            ok == analyze_blocks(old(self)@, blocks_view(bs@), 0) is Some,
            ok ==> final(self)@ == analyze_blocks(old(self)@, blocks_view(bs@), 0)->0,
        decreases bs,
    {
        let ghost bv = blocks_view(bs@);
        let ghost s0 = self@;
        let mut i: usize = 0;
        while i < bs.len()
            invariant
                i <= bs@.len(),
                bv == blocks_view(bs@),
                s0 == old(self)@,
                analyze_blocks(s0, bv, 0) == analyze_blocks(self@, bv, i as nat),
            decreases bs@.len() - i,
        {
            proof {
                vstd::std_specs::vec::axiom_vec_index_decreases(*bs, i as int);
            }
            assert(bv[i as int] == block_view(bs@[i as int]));
            let ghost sk = self@;
            if !self.analyze_one(&bs[i]) {
                assert(analyze_blocks(sk, bv, i as nat) is None);
                return false;
            }
            i = i + 1;
        }
        true
    }

    /// Analyzes the blocks, adding to the table and the errors.
    pub fn analyze(&mut self, stack: Vec<Block>)
        requires
            analyze_blocks(old(self)@, blocks_view(stack@), 0) is Some,
        ensures
            final(self)@ == analyze_blocks(old(self)@, blocks_view(stack@), 0)->0,
            final(self)@.max_nesting == old(self)@.max_nesting,
            old(self)@.errors.len() <= final(self)@.errors.len(),
            forall|i: int| 0 <= i < old(self)@.errors.len() ==> #[trigger] final(self)@.errors[i] == old(self)@.errors[i],
    {
        proof {
            crate::error_positions::lemma_analysis_keeps_errors(self@, blocks_view(stack@));
        }
        let ok = self.analyze_blocks(&stack);
        assert(ok);
    }

    /// As `analyze`; false, with the analyzer in an unspecified state, where
    /// the analysis would stop on a panic.
    pub fn try_analyze(&mut self, stack: &Vec<Block>) -> (ok: bool)
        ensures
            ok == analyze_blocks(old(self)@, blocks_view(stack@), 0) is Some,
            ok ==> final(self)@ == analyze_blocks(old(self)@, blocks_view(stack@), 0)->0,
            ok ==> final(self)@.max_nesting == old(self)@.max_nesting,
            ok ==> old(self)@.errors.len() <= final(self)@.errors.len(),
            ok ==> forall|i: int| 0 <= i < old(self)@.errors.len() ==> #[trigger] final(self)@.errors[i] == old(self)@.errors[i],
    {
        proof {
            crate::error_positions::lemma_analysis_keeps_errors(self@, blocks_view(stack@));
        }
        self.analyze_blocks(stack)
    }

    /// The errors found so far.
    pub fn errors(&self) -> (r: &Vec<Error>)
        ensures
            errors_view(r@) == self@.errors,
    {
        &self.error_messages
    }

    /// The symbol table built.
    pub fn into_table(self) -> (r: Vec<TableTypes>)
        ensures
            tables_view(r@) == self@.table,
    {
        self.table
    }
}

/// The symbol table of parsed blocks, or the errors found in them.
pub fn analyze_semantically(stack: Vec<Block>) -> (r: Result<Vec<TableTypes>, Vec<Error>>)
    requires
        analysis(blocks_view(stack@)) is Some,
    ensures
        match analysis(blocks_view(stack@))->0 {
            Ok(t) => r matches Ok(v) && tables_view(v@) == t,
            Err(e) => r matches Err(v) && errors_view(v@) == e,
        },
{
    match try_analyze_semantically(&stack) {
        Some(r) => r,
        None => {
            assert(false);
            Err(Vec::new())
        },
    }
}

/// As `analyze_semantically`, or nothing where the analysis would stop on a panic.
pub fn try_analyze_semantically(stack: &Vec<Block>) -> (r: Option<Result<Vec<TableTypes>, Vec<Error>>>)
    ensures
        match analysis(blocks_view(stack@)) {
            None => r is None,
            Some(Ok(t)) => r matches Some(Ok(v)) && tables_view(v@) == t,
            Some(Err(e)) => r matches Some(Err(v)) && errors_view(v@) == e,
        },
{
    let mut sa = SemanticAnalyzer::new();
    if !sa.try_analyze(stack) {
        return None;
    }
    if sa.error_messages.len() > 0 {
        let SemanticAnalyzer { error_messages, .. } = sa;
        Some(Err(error_messages))
    } else {
        Some(Ok(sa.into_table()))
    }
}

// ---------------------------------------------------------------------------
// Listing the symbol table.

pub open spec fn ptr_text(p: Option<PointerType>) -> Seq<char> {
    ptr_prefix(p)
}

pub open spec fn scope_debug(sc: Scope) -> Seq<char> {
    match sc {
        Scope::Root => "Root"@,
        Scope::Function => "Function"@,
        Scope::Parameter => "Parameter"@,
        Scope::EnbedFunc => "EnbedFunc"@,
    }
}

/// The `{:?}` text of an optional count.
pub open spec fn opt_usize_debug(o: Option<usize>) -> Seq<char> {
    match o {
        Some(n) => "Some("@ + decimal(n as nat) + ")"@,
        None => "None"@,
    }
}

pub open spec fn name_or_blank(o: Option<Seq<char>>) -> Seq<char> {
    match o {
        Some(n) => n,
        None => "_"@,
    }
}

/// An operand in a listing.
pub open spec fn value_text(v: ValueM) -> Seq<char>
    decreases v,
{
    match v {
        ValueM::Var(n) => n,
        ValueM::Deref(n) => "*"@ + n,
        ValueM::Ref(n) => "&"@ + n,
        ValueM::Index(n, i) => n + "["@ + i + "]"@,
        ValueM::FuncCall(fc) => call_inline(fc),
    }
}

/// A call in a listing: `name(arguments)`.
pub open spec fn call_inline(fc: CallM) -> Seq<char>
    decreases fc,
{
    let params = match fc.parameters {
        Some(p) => items_inline(p, ", "@),
        None => seq![],
    };
    fc.name + "("@ + params + ")"@
}

/// Entries as operands, joined with `sep`.
pub open spec fn items_inline(p: Seq<TableM>, sep: Seq<char>) -> Seq<char>
    decreases p,
{
    if p.len() == 0 {
        seq![]
    } else if p.len() == 1 {
        item_inline(p[0])
    } else {
        items_inline(p.subrange(0, p.len() - 1), sep) + sep + item_inline(p[p.len() - 1])
    }
}

/// An entry used as an operand in a listing.
pub open spec fn item_inline(e: TableM) -> Seq<char>
    decreases e,
{
    match e {
        TableM::Variable(v) => match v.name {
            Some(n) => if n != "_"@ {
                n
            } else {
                values_text(v.value)
            },
            None => values_text(v.value),
        },
        TableM::FunctionCall(fc) => call_inline(fc),
        TableM::Reasingment(r) => r.name,
        _ => "<expr>"@,
    }
}

/// Operands joined with spaces.
pub open spec fn values_join(v: Seq<ValueM>) -> Seq<char>
    decreases v,
{
    if v.len() == 0 {
        seq![]
    } else if v.len() == 1 {
        value_text(v[0])
    } else {
        values_join(v.subrange(0, v.len() - 1)) + " "@ + value_text(v[v.len() - 1])
    }
}

/// Values in a listing, separated by spaces.
pub open spec fn values_text(o: Option<Seq<ValueM>>) -> Seq<char>
    decreases o,
{
    match o {
        Some(v) => if v.len() > 0 {
            values_join(v)
        } else {
            "<none>"@
        },
        None => "<none>"@,
    }
}

pub open spec fn inline_join(p: Seq<TableM>, sep: Seq<char>) -> Seq<char> {
    items_inline(p, sep)
}

pub open spec fn var_text(v: VarM, p: Seq<char>) -> Seq<char> {
    let note = if v.is_array { " [array; size="@ + opt_usize_debug(v.array_size) + "]"@ } else { seq![] };
    p + "var "@ + ptr_text(v.ptr) + name_or_blank(v.name) + ": "@ + crate::token::token_debug(v.token_type) + " = "@
        + values_text(v.value) + note
}

pub open spec fn reas_text(r: ReasM, p: Seq<char>) -> Seq<char> {
    let params = match r.parameters {
        Some(ps) => inline_join(ps, ", "@),
        None => seq![],
    };
    let idx = match r.array_index {
        Some(i) => "["@ + i + "]"@,
        None => seq![],
    };
    p + ptr_text(r.ptr) + r.name + idx + " = "@ + params + "  ("@ + crate::token::token_debug(r.token_type) + ", scope="@
        + scope_debug(r.target_scope) + ", target="@ + decimal(r.target as nat) + ")"@
}

pub open spec fn call_text(fc: CallM, p: Seq<char>) -> Seq<char> {
    p + call_inline(fc) + "  (scope="@ + scope_debug(fc.scope) + ", target="@ + decimal(fc.target as nat) + ")"@
}

pub open spec fn ret_text(r: RetM, p: Seq<char>) -> Seq<char> {
    p + "return "@ + (match r.value {
        Some(v) => values_text(v.value),
        None => "<none>"@,
    })
}

/// A header line, the body at the next level, and the closing brace.
pub open spec fn block_text(header: Seq<char>, body: Seq<char>, p: Seq<char>) -> Seq<char> {
    header + "\n"@ + body + "\n"@ + p + "}"@
}

pub open spec fn fn_text(f: FuncM, level: nat) -> Seq<char>
    decreases f,
{
    let p = repeat_seq("    "@, level);
    let ret = match f.return_type {
        Some(t) => token_text(t),
        None => "void"@,
    };
    block_text(p + "fn "@ + name_or_blank(f.name) + "() -> "@ + ret + " {"@, table_text(f.table, level + 1), p)
}

pub open spec fn branch_text(kw: Seq<char>, c: BranchM, level: nat) -> Seq<char>
    decreases c,
{
    let p = repeat_seq("    "@, level);
    block_text(p + kw + inline_join(c.condition, " "@) + " {"@, table_text(c.table, level + 1), p)
}

pub open spec fn struct_text(st: StructM, level: nat) -> Seq<char>
    decreases st,
{
    let p = repeat_seq("    "@, level);
    let body = table_text(st.arguments, level + 1) + (if st.functions.len() > 0 {
        "\n"@ + p + "    -- methods --\n"@ + table_text(st.functions, level + 1)
    } else {
        seq![]
    });
    block_text(p + "struct "@ + st.name + " {"@, body, p)
}

/// An entry in a listing, at nesting `level`.
pub open spec fn item_text(e: TableM, level: nat) -> Seq<char>
    decreases e,
{
    let p = repeat_seq("    "@, level);
    match e {
        TableM::Variable(v) => var_text(v, p),
        TableM::Function(f) => fn_text(f, level),
        TableM::Reasingment(r) => reas_text(r, p),
        TableM::FunctionCall(fc) => call_text(fc, p),
        TableM::Conditional(c) => branch_text("if "@, c, level),
        TableM::Loop(l) => branch_text("while "@, l, level),
        TableM::Return(r) => ret_text(r, p),
        TableM::StructLiteral(st) => struct_text(st, level),
        TableM::Unknown => p + "<unknown>"@,
    }
}

/// A table in a listing: its entries, one to a line, at nesting `level`.
pub open spec fn table_text(t: Seq<TableM>, level: nat) -> Seq<char>
    decreases t,
{
    if t.len() == 0 {
        seq![]
    } else if t.len() == 1 {
        item_text(t[0], level)
    } else {
        table_text(t.subrange(0, t.len() - 1), level) + "\n"@ + item_text(t[t.len() - 1], level)
    }
}

fn scope_debug_chars(sc: Scope) -> (r: Vec<char>)
    ensures
        r@ == scope_debug(sc),
{
    match sc {
        Scope::Root => lit_chars("Root"),
        Scope::Function => lit_chars("Function"),
        Scope::Parameter => lit_chars("Parameter"),
        Scope::EnbedFunc => lit_chars("EnbedFunc"),
    }
}

fn opt_usize_debug_chars(o: Option<usize>) -> (r: Vec<char>)
    ensures
        r@ == opt_usize_debug(o),
{
    match o {
        Some(n) => {
            let mut v = lit_chars("Some(");
            push_decimal(&mut v, n as u64);
            push_all(&mut v, lit_chars(")").as_slice());
            v
        },
        None => lit_chars("None"),
    }
}

fn name_or_blank_chars(o: &Option<String>) -> (r: Vec<char>)
    ensures
        r@ == name_or_blank(crate::variable_types::opt_string_view(*o)),
{
    match o {
        Some(n) => chars_of(n.as_str()),
        None => lit_chars("_"),
    }
}

fn value_text_of(v: &Value) -> (r: Vec<char>)
    ensures
        r@ == value_text(v@),
    decreases v,
{
    match v {
        Value::Var(n) => chars_of(n.as_str()),
        Value::Deref(n) => {
            let mut o = lit_chars("*");
            push_all(&mut o, chars_of(n.as_str()).as_slice());
            o
        },
        Value::Ref(n) => {
            let mut o = lit_chars("&");
            push_all(&mut o, chars_of(n.as_str()).as_slice());
            o
        },
        Value::Index(n, i) => {
            let mut o = chars_of(n.as_str());
            push_all(&mut o, lit_chars("[").as_slice());
            push_all(&mut o, chars_of(i.as_str()).as_slice());
            push_all(&mut o, lit_chars("]").as_slice());
            o
        },
        Value::FuncCall(fc) => call_inline_of(fc),
    }
}

fn call_inline_of(fc: &FunctionCall) -> (r: Vec<char>)
    ensures
        r@ == call_inline(fc@),
    decreases fc,
{
    let mut o = chars_of(fc.name.as_str());
    push_all(&mut o, lit_chars("(").as_slice());
    match &fc.parameters {
        Some(p) => {
            let j = items_inline_of(p, ", ");
            push_all(&mut o, j.as_slice());
        },
        None => {},
    }
    push_all(&mut o, lit_chars(")").as_slice());
    o
}

fn items_inline_of(p: &Vec<TableTypes>, sep: &str) -> (r: Vec<char>)
    ensures
        r@ == items_inline(tables_view(p@), sep@),
    decreases p,
{
    let ghost tv = tables_view(p@);
    let mut out: Vec<char> = Vec::new();
    let mut i: usize = 0;
    while i < p.len()
        invariant
            i <= p@.len(),
            tv == tables_view(p@),
            out@ == items_inline(tv.subrange(0, i as int), sep@),
        decreases p@.len() - i,
    {
        proof {
            vstd::std_specs::vec::axiom_vec_index_decreases(*p, i as int);
        }
        if i > 0 {
            push_all(&mut out, lit_chars(sep).as_slice());
        }
        let x = item_inline_of(&p[i]);
        push_all(&mut out, x.as_slice());
        let ghost sub = tv.subrange(0, i + 1);
        assert(sub.subrange(0, i as int) =~= tv.subrange(0, i as int));
        assert(sub[i as int] == table_view(p@[i as int]));
        assert(i == 0 ==> tv.subrange(0, 0) =~= seq![]);
        assert(out@ =~= items_inline(sub, sep@));
        i = i + 1;
    }
    assert(tv.subrange(0, p@.len() as int) =~= tv);
    out
}

fn item_inline_of(e: &TableTypes) -> (r: Vec<char>)
    ensures
        r@ == item_inline(e@),
    decreases e,
{
    match e {
        TableTypes::Variable(v) => {
            match &v.name {
                Some(n) => {
                    let c = chars_of(n.as_str());
                    if !chars_is(c.as_slice(), "_") {
                        return c;
                    }
                },
                None => {},
            }
            values_text_of(&v.value)
        },
        TableTypes::FunctionCall(fc) => call_inline_of(fc),
        TableTypes::Reasingment(r) => chars_of(r.name.as_str()),
        _ => lit_chars("<expr>"),
    }
}

fn values_text_of(o: &Option<Vec<Value>>) -> (r: Vec<char>)
    ensures
        r@ == values_text(opt_values_view(*o)),
    decreases o,
{
    match o {
        Some(v) => {
            if v.len() == 0 {
                assert(values_view(v@).len() == 0);
                return lit_chars("<none>");
            }
            values_join_of(v)
        },
        None => lit_chars("<none>"),
    }
}

fn values_join_of(v: &Vec<Value>) -> (r: Vec<char>)
    ensures
        r@ == values_join(values_view(v@)),
    decreases v,
{
    let ghost vv = values_view(v@);
    let mut out: Vec<char> = Vec::new();
    let mut i: usize = 0;
    while i < v.len()
        invariant
            i <= v@.len(),
            vv == values_view(v@),
            out@ == values_join(vv.subrange(0, i as int)),
        decreases v@.len() - i,
    {
        proof {
            vstd::std_specs::vec::axiom_vec_index_decreases(*v, i as int);
        }
        if i > 0 {
            push_all(&mut out, lit_chars(" ").as_slice());
        }
        let x = value_text_of(&v[i]);
        push_all(&mut out, x.as_slice());
        let ghost sub = vv.subrange(0, i + 1);
        assert(sub.subrange(0, i as int) =~= vv.subrange(0, i as int));
        assert(sub[i as int] == value_view(v@[i as int]));
        assert(i == 0 ==> vv.subrange(0, 0) =~= seq![]);
        assert(out@ =~= values_join(sub));
        i = i + 1;
    }
    assert(vv.subrange(0, v@.len() as int) =~= vv);
    out
}

fn var_text_of(v: &Variable, pad: &Vec<char>) -> (r: Vec<char>)
    ensures
        r@ == var_text(v@, pad@),
{
    proof {
        lemma_canon_text(v.token_type);
    }
    let mut o = copy_chars(pad.as_slice());
    push_all(&mut o, lit_chars("var ").as_slice());
    push_all(&mut o, ptr_prefix_chars(v.ptr).as_slice());
    push_all(&mut o, name_or_blank_chars(&v.name).as_slice());
    push_all(&mut o, lit_chars(": ").as_slice());
    push_all(&mut o, v.token_type.debug_text().as_slice());
    push_all(&mut o, lit_chars(" = ").as_slice());
    push_all(&mut o, values_text_of(&v.value).as_slice());
    if v.is_array {
        push_all(&mut o, lit_chars(" [array; size=").as_slice());
        push_all(&mut o, opt_usize_debug_chars(v.array_size).as_slice());
        push_all(&mut o, lit_chars("]").as_slice());
    }
    assert(o@ =~= var_text(v@, pad@));
    o
}

fn reas_text_of(r: &Reasingment, pad: &Vec<char>) -> (out: Vec<char>)
    ensures
        out@ == reas_text(r@, pad@),
{
    proof {
        lemma_canon_text(r.token_type);
    }
    let mut o = copy_chars(pad.as_slice());
    push_all(&mut o, ptr_prefix_chars(r.ptr).as_slice());
    push_all(&mut o, chars_of(r.name.as_str()).as_slice());
    match &r.array_index {
        Some(i) => {
            push_all(&mut o, lit_chars("[").as_slice());
            push_all(&mut o, chars_of(i.as_str()).as_slice());
            push_all(&mut o, lit_chars("]").as_slice());
        },
        None => {},
    }
    push_all(&mut o, lit_chars(" = ").as_slice());
    match &r.parameters {
        Some(ps) => push_all(&mut o, items_inline_of(ps, ", ").as_slice()),
        None => {},
    }
    push_all(&mut o, lit_chars("  (").as_slice());
    push_all(&mut o, r.token_type.debug_text().as_slice());
    push_all(&mut o, lit_chars(", scope=").as_slice());
    push_all(&mut o, scope_debug_chars(r.target_scope).as_slice());
    push_all(&mut o, lit_chars(", target=").as_slice());
    push_decimal(&mut o, r.target as u64);
    push_all(&mut o, lit_chars(")").as_slice());
    assert(o@ =~= reas_text(r@, pad@));
    o
}

fn call_text_of(fc: &FunctionCall, pad: &Vec<char>) -> (r: Vec<char>)
    ensures
        r@ == call_text(fc@, pad@),
{
    let mut o = copy_chars(pad.as_slice());
    push_all(&mut o, call_inline_of(fc).as_slice());
    push_all(&mut o, lit_chars("  (scope=").as_slice());
    push_all(&mut o, scope_debug_chars(fc.scope).as_slice());
    push_all(&mut o, lit_chars(", target=").as_slice());
    push_decimal(&mut o, fc.target as u64);
    push_all(&mut o, lit_chars(")").as_slice());
    assert(o@ =~= call_text(fc@, pad@));
    o
}

fn ret_text_of(r: &Return, pad: &Vec<char>) -> (out: Vec<char>)
    ensures
        out@ == ret_text(r@, pad@),
{
    let mut o = copy_chars(pad.as_slice());
    push_all(&mut o, lit_chars("return ").as_slice());
    match &r.value {
        Some(v) => push_all(&mut o, values_text_of(&v.value).as_slice()),
        None => push_all(&mut o, lit_chars("<none>").as_slice()),
    }
    assert(o@ =~= ret_text(r@, pad@));
    o
}

fn block_text_of(header: Vec<char>, body: Vec<char>, pad: &Vec<char>) -> (r: Vec<char>)
    ensures
        r@ == block_text(header@, body@, pad@),
{
    let mut o = header;
    push_all(&mut o, lit_chars("\n").as_slice());
    push_all(&mut o, body.as_slice());
    push_all(&mut o, lit_chars("\n").as_slice());
    push_all(&mut o, pad.as_slice());
    push_all(&mut o, lit_chars("}").as_slice());
    o
}

fn fn_header_of(f: &Function, pad: &Vec<char>) -> (r: Vec<char>)
    ensures
        r@ == pad@ + "fn "@ + name_or_blank(f@.name) + "() -> "@ + (match f@.return_type {
            Some(t) => token_text(t),
            None => "void"@,
        }) + " {"@,
{
    let mut h = copy_chars(pad.as_slice());
    push_all(&mut h, lit_chars("fn ").as_slice());
    push_all(&mut h, name_or_blank_chars(&f.name).as_slice());
    push_all(&mut h, lit_chars("() -> ").as_slice());
    match &f.return_type {
        Some(t) => {
            proof {
                lemma_canon_text(*t);
            }
            push_all(&mut h, t.text().as_slice());
        },
        None => push_all(&mut h, lit_chars("void").as_slice()),
    }
    push_all(&mut h, lit_chars(" {").as_slice());
    h
}

fn branch_header_of(kw: &str, cond: &Vec<TableTypes>, pad: &Vec<char>) -> (r: Vec<char>)
    ensures
        r@ == pad@ + kw@ + inline_join(tables_view(cond@), " "@) + " {"@,
{
    let mut h = copy_chars(pad.as_slice());
    push_all(&mut h, lit_chars(kw).as_slice());
    push_all(&mut h, items_inline_of(cond, " ").as_slice());
    push_all(&mut h, lit_chars(" {").as_slice());
    h
}

fn item_text_of(e: &TableTypes, pad: &Vec<char>, Ghost(level): Ghost<nat>) -> (r: Vec<char>)
    requires
        pad@ == repeat_seq("    "@, level),
    ensures
        r@ == item_text(e@, level),
    decreases e,
{
    let mut inner_pad = copy_chars(pad.as_slice());
    push_all(&mut inner_pad, lit_chars("    ").as_slice());
    assert(inner_pad@ == repeat_seq("    "@, level + 1));
    match e {
        TableTypes::Variable(v) => var_text_of(v, pad),
        TableTypes::Function(f) => {
            let h = fn_header_of(f, pad);
            let body = table_text_of(&f.table, &inner_pad, Ghost(level + 1));
            block_text_of(h, body, pad)
        },
        TableTypes::Reasingment(r) => reas_text_of(r, pad),
        TableTypes::FunctionCall(fc) => call_text_of(fc, pad),
        TableTypes::Conditional(c) => {
            let h = branch_header_of("if ", &c.condition, pad);
            let body = table_text_of(&c.table, &inner_pad, Ghost(level + 1));
            block_text_of(h, body, pad)
        },
        TableTypes::Loop(l) => {
            let h = branch_header_of("while ", &l.condition, pad);
            let body = table_text_of(&l.table, &inner_pad, Ghost(level + 1));
            block_text_of(h, body, pad)
        },
        TableTypes::Return(r) => ret_text_of(r, pad),
        TableTypes::StructLiteral(st) => {
            let mut h = copy_chars(pad.as_slice());
            push_all(&mut h, lit_chars("struct ").as_slice());
            push_all(&mut h, chars_of(st.name.as_str()).as_slice());
            push_all(&mut h, lit_chars(" {").as_slice());
            let mut body = table_text_of(&st.arguments, &inner_pad, Ghost(level + 1));
            if st.functions.len() > 0 {
                push_all(&mut body, lit_chars("\n").as_slice());
                push_all(&mut body, pad.as_slice());
                push_all(&mut body, lit_chars("    -- methods --\n").as_slice());
                push_all(&mut body, table_text_of(&st.functions, &inner_pad, Ghost(level + 1)).as_slice());
            } else {
                assert(tables_view(st.functions@).len() == 0);
            }
            block_text_of(h, body, pad)
        },
        TableTypes::Unknown => {
            let mut o = copy_chars(pad.as_slice());
            push_all(&mut o, lit_chars("<unknown>").as_slice());
            o
        },
    }
}

fn table_text_of(t: &Vec<TableTypes>, pad: &Vec<char>, Ghost(level): Ghost<nat>) -> (r: Vec<char>)
    requires
        pad@ == repeat_seq("    "@, level),
    ensures
        r@ == table_text(tables_view(t@), level),
    decreases t,
{
    let ghost tv = tables_view(t@);
    let mut out: Vec<char> = Vec::new();
    let mut i: usize = 0;
    while i < t.len()
        invariant
            i <= t@.len(),
            tv == tables_view(t@),
            pad@ == repeat_seq("    "@, level),
            out@ == table_text(tv.subrange(0, i as int), level),
        decreases t@.len() - i,
    {
        proof {
            vstd::std_specs::vec::axiom_vec_index_decreases(*t, i as int);
        }
        if i > 0 {
            push_all(&mut out, lit_chars("\n").as_slice());
        }
        let x = item_text_of(&t[i], pad, Ghost(level));
        push_all(&mut out, x.as_slice());
        let ghost sub = tv.subrange(0, i + 1);
        assert(sub.subrange(0, i as int) =~= tv.subrange(0, i as int));
        assert(sub[i as int] == table_view(t@[i as int]));
        assert(i == 0 ==> tv.subrange(0, 0) =~= seq![]);
        assert(out@ =~= table_text(sub, level));
        i = i + 1;
    }
    assert(tv.subrange(0, t@.len() as int) =~= tv);
    out
}

/// The listing of a symbol table: each entry on its own line, bodies indented by four spaces.
pub fn format_table(table: &Vec<TableTypes>) -> (r: String)
    ensures
        r@ == table_text(tables_view(table@), 0),
{
    let pad: Vec<char> = Vec::new();
    assert(pad@ =~= repeat_seq("    "@, 0));
    let v = table_text_of(table, &pad, Ghost(0));
    string_from(v.as_slice())
}

impl SemanticAnalyzer {
    /// The listing of the table built so far.
    pub fn format_table(&self) -> (r: String)
        ensures
            r@ == table_text(self@.table, 0),
    {
        format_table(&self.table)
    }
}

// ---------------------------------------------------------------------------
// Error reports.

/// Whether `char::is_alphanumeric` holds of a character (Unicode's
/// `Alphabetic` or `Numeric` property).
pub uninterp spec fn is_alnum(c: char) -> bool;

/// `char::is_alphanumeric`. Trusted: the result is `is_alnum` of the character.
#[verifier::external_body]
fn char_is_alphanumeric(c: char) -> (r: bool)
    ensures
        r == is_alnum(c),
{
    c.is_alphanumeric()
}

pub open spec fn is_word_char(c: char) -> bool {
    is_alnum(c) || c == '_'
}

/// The start of the run of word characters that ends at `idx`.
pub open spec fn span_start(s: Seq<char>, idx: nat) -> nat
    decreases idx,
{
    if idx > 0 && idx <= s.len() && is_word_char(s[idx - 1]) {
        span_start(s, (idx - 1) as nat)
    } else {
        idx
    }
}

/// The end of the run of word characters that starts at `idx`.
pub open spec fn span_end(s: Seq<char>, idx: nat) -> nat
    decreases s.len() - idx,
{
    if idx < s.len() && is_word_char(s[idx as int]) {
        span_end(s, idx + 1)
    } else {
        idx
    }
}

/// The column (from 1) and length of the word around column `pos` of a
/// line, for underlining; at least one character.
pub open spec fn word_span(line: Seq<char>, pos: nat) -> (nat, nat) {
    if line.len() == 0 {
        (pos, 1)
    } else {
        let p1: nat = if pos > 0 { (pos - 1) as nat } else { 0 };
        let idx: nat = if p1 < (line.len() - 1) as nat { p1 } else { (line.len() - 1) as nat };
        let st = span_start(line, idx);
        let en0 = span_end(line, idx);
        let en = if en0 == st { st + 1 } else { en0 };
        (st + 1, (en - st) as nat)
    }
}

proof fn lemma_span_start(s: Seq<char>, idx: nat)
    requires
        idx <= s.len(),
    ensures
        span_start(s, idx) <= idx,
    decreases idx,
{
    if idx > 0 && is_word_char(s[idx - 1]) {
        lemma_span_start(s, (idx - 1) as nat);
    }
}

proof fn lemma_span_end(s: Seq<char>, idx: nat)
    requires
        idx <= s.len(),
    ensures
        idx <= span_end(s, idx) <= s.len(),
    decreases s.len() - idx,
{
    if idx < s.len() && is_word_char(s[idx as int]) {
        lemma_span_end(s, idx + 1);
    }
}

/// The column (from 1) and length of the word around column `pos` of a line.
pub fn word_span_at(line: &str, pos: usize) -> (r: (usize, usize))
    ensures
        r.0 as nat == word_span(line@, pos as nat).0,
        r.1 as nat == word_span(line@, pos as nat).1,
{
    let chars = chars_of(line);
    if chars.len() == 0 {
        return (pos, 1);
    }
    let p1 = if pos > 0 { pos - 1 } else { 0 };
    let idx = if p1 < chars.len() - 1 { p1 } else { chars.len() - 1 };
    let mut start = idx;
    while start > 0 && (char_is_alphanumeric(chars[start - 1]) || chars[start - 1] == '_')
        invariant
            start <= idx < chars@.len(),
            span_start(chars@, idx as nat) == span_start(chars@, start as nat),
        decreases start,
    {
        start = start - 1;
    }
    let mut end = idx;
    while end < chars.len() && (char_is_alphanumeric(chars[end]) || chars[end] == '_')
        invariant
            idx <= end <= chars@.len(),
            span_end(chars@, idx as nat) == span_end(chars@, end as nat),
        decreases chars@.len() - end,
    {
        end = end + 1;
    }
    proof {
        lemma_span_start(chars@, idx as nat);
        lemma_span_end(chars@, idx as nat);
    }
    if end == start {
        end = start + 1;
    }
    (start + 1, end - start)
}

/// How many decimal digits `n` has.
pub open spec fn digits(n: nat) -> nat {
    decimal(n).len()
}

/// `s` right-aligned in `width` columns.
pub open spec fn right_align(s: Seq<char>, width: nat) -> Seq<char> {
    if s.len() < width {
        repeat_seq(" "@, (width - s.len()) as nat) + s
    } else {
        s
    }
}

/// The first line number of the excerpt around an error on line `error_line` (counted from 0).
pub open spec fn excerpt_start(error_line: nat) -> nat {
    if error_line > 2 { (error_line - 2) as nat } else { 1 }
}

/// The first and last line numbers of the excerpt, for a file of `total` lines.
pub open spec fn excerpt_range(error_line: nat, total: nat) -> (nat, nat) {
    let start = excerpt_start(error_line);
    let end: nat = start + 4;
    if end > total {
        (if total > 4 { (total - 4) as nat } else { 1 }, total)
    } else {
        (start, end)
    }
}

/// The excerpt lines from `i` to `end`: each line number right-aligned, and
/// under the error's line the word at the error's column underlined;
/// nothing where the underline's indentation overflows.
pub open spec fn excerpt_lines(code: Seq<Seq<char>>, e: ErrM, i: nat, end: nat, width: nat) -> Option<Seq<Seq<char>>>
    decreases end + 1 - i,
{
    if i > end || i == 0 || i > code.len() {
        Some(seq![])
    } else {
        let content = code[i - 1];
        let numbered = right_align(decimal(i + 1), width) + " | "@ + content;
        let (ws, wl) = word_span(content, e.ch as nat);
        let lead: nat = width + 3 + (if ws > 0 { (ws - 1) as nat } else { 0 });
        if i == e.line - 1 && lead > usize::MAX {
            None
        } else {
            let under: Seq<Seq<char>> = if i == e.line - 1 {
                seq![repeat_seq(" "@, lead) + repeat_seq("~"@, if wl > 1 { wl } else { 1 })]
            } else {
                seq![]
            };
            match excerpt_lines(code, e, i + 1, end, width) {
                Some(rest) => Some(seq![numbered] + under + rest),
                None => None,
            }
        }
    }
}

/// What reporting an error prints, one entry per printed line: the message,
/// where it is, and an excerpt of the source around it. Nothing where the
/// error has no line (line 0) or a number overflows.
pub open spec fn report_lines(code: Seq<Seq<char>>, file_name: Seq<char>, e: ErrM) -> Option<Seq<Seq<char>>> {
    if e.line == 0 || excerpt_start((e.line - 1) as nat) + 4 > usize::MAX {
        None
    } else {
        let (start, end) = excerpt_range((e.line - 1) as nat, code.len());
        if end + 1 > usize::MAX {
            None
        } else {
            match excerpt_lines(code, e, start, end, digits(end + 1)) {
                None => None,
                Some(ex) => Some(
                    seq!["\n[Error]: "@ + e.msg, "--> "@ + file_name + " line:"@ + decimal(e.line as nat)
                        + ", char pos :"@ + decimal(e.ch as nat), seq![]] + ex + seq![seq![]],
                ),
            }
        }
    }
}

proof fn lemma_decimal_len(n: nat)
    ensures
        decimal(n).len() <= n + 1,
    decreases n,
{
    if n >= 10 {
        lemma_decimal_len(n / 10);
        assert(decimal(n).len() == decimal(n / 10).len() + 1);
    }
}

proof fn lemma_excerpt_lines_some(code: Seq<Seq<char>>, e: ErrM, i: nat, end: nat, width: nat)
    requires
        end <= code.len(),
        width <= end + 2,
        e.ch + code.len() + 8 <= usize::MAX,
        forall|j: int| 0 <= j < code.len() ==> code.len() + #[trigger] code[j].len() + 8 <= usize::MAX,
    ensures
        excerpt_lines(code, e, i, end, width) is Some,
    decreases end + 1 - i,
{
    if !(i > end || i == 0 || i > code.len()) {
        let content = code[i - 1];
        if content.len() > 0 {
            let p1: nat = if e.ch > 0 { (e.ch - 1) as nat } else { 0 };
            let idx: nat = if p1 < (content.len() - 1) as nat { p1 } else { (content.len() - 1) as nat };
            lemma_span_start(content, idx);
        }
        assert(code.len() + content.len() + 8 <= usize::MAX);
        lemma_excerpt_lines_some(code, e, i + 1, end, width);
    }
}

/// An error on one of the lines of a file can always be shown: reporting it
/// gives the message, the file, line and column, an empty line, and an
/// excerpt (for a file, line lengths and column far enough below the
/// largest `usize`).
pub proof fn lemma_error_reportable(code: Seq<Seq<char>>, file_name: Seq<char>, e: ErrM)
    requires
        1 <= e.line <= code.len(),
        e.ch + code.len() + 8 <= usize::MAX,
        forall|j: int| 0 <= j < code.len() ==> code.len() + #[trigger] code[j].len() + 8 <= usize::MAX,
    ensures
        report_lines(code, file_name, e) matches Some(ls) && ls.len() >= 4
            && ls[0] == "\n[Error]: "@ + e.msg
            && ls[1] == "--> "@ + file_name + " line:"@ + decimal(e.line as nat) + ", char pos :"@
                + decimal(e.ch as nat)
            && ls[2] == Seq::<char>::empty(),
{
    let (start, end) = excerpt_range((e.line - 1) as nat, code.len());
    lemma_decimal_len(end + 1);
    lemma_excerpt_lines_some(code, e, start, end, digits(end + 1));
}

fn repeat_chars(out: &mut Vec<char>, c: char, n: usize)
    ensures
        final(out)@ == old(out)@ + repeat_seq(seq![c], n as nat),
{
    let ghost start = out@;
    let mut k: usize = 0;
    while k < n
        invariant
            k <= n,
            out@ == start + repeat_seq(seq![c], k as nat),
        decreases n - k,
    {
        out.push(c);
        k = k + 1;
        assert(out@ =~= start + repeat_seq(seq![c], k as nat));
    }
}

fn digits_of(n: usize) -> (r: usize)
    ensures
        r as nat == digits(n as nat),
{
    let mut v: Vec<char> = Vec::new();
    push_decimal(&mut v, n as u64);
    v.len()
}

pub open spec fn lines_prefix(a: Seq<Seq<char>>, o: Option<Seq<Seq<char>>>) -> Option<Seq<Seq<char>>> {
    match o {
        Some(r) => Some(a + r),
        None => None,
    }
}

proof fn lemma_lines_prefix(a: Seq<Seq<char>>, b: Seq<Seq<char>>, o: Option<Seq<Seq<char>>>)
    ensures
        lines_prefix(a, lines_prefix(b, o)) == lines_prefix(a + b, o),
{
    match o {
        Some(r) => {
            assert(a + (b + r) =~= (a + b) + r);
        },
        None => {},
    }
}

/// What reporting an error prints, one entry per printed line; nothing where
/// the error has no line (line 0) or a number overflows.
pub fn error_report(code: &Vec<String>, file_name: &str, e: &Error) -> (r: Option<Vec<String>>)
    ensures
        match report_lines(crate::three_address_code_gen::strings_view(code@), file_name@, e@) {
            None => r is None,
            Some(ls) => r matches Some(v) && crate::three_address_code_gen::strings_view(v@) == ls,
        },
{
    let ghost cv = crate::three_address_code_gen::strings_view(code@);
    if e.line == 0 {
        return None;
    }
    let error_line = e.line - 1;
    let start0: usize = if error_line > 2 { error_line - 2 } else { 1 };
    if start0 > usize::MAX - 4 {
        return None;
    }
    let total = code.len();
    let mut start = start0;
    let mut end = start0 + 4;
    if end > total {
        end = total;
        start = if end > 4 { end - 4 } else { 1 };
    }
    if end == usize::MAX {
        return None;
    }
    let width = digits_of(end + 1);
    let mut ex: Vec<String> = Vec::new();
    let mut i = start;
    assert(crate::three_address_code_gen::strings_view(ex@) =~= seq![]);
    while i <= end
        invariant
            1 <= start <= i,
            end < usize::MAX,
            end <= total,
            total == code@.len(),
            error_line == e.line - 1,
            e.line > 0,
            excerpt_start(error_line as nat) + 4 <= usize::MAX,
            (start as nat, end as nat) == excerpt_range(error_line as nat, cv.len()),
            cv == crate::three_address_code_gen::strings_view(code@),
            width as nat == digits((end + 1) as nat),
            excerpt_lines(cv, e@, start as nat, end as nat, width as nat) == lines_prefix(
                crate::three_address_code_gen::strings_view(ex@),
                excerpt_lines(cv, e@, i as nat, end as nat, width as nat),
            ),
        decreases end + 1 - i,
    {
        proof {
            reveal_strlit(" ");
            reveal_strlit("~");
            assert(" "@ =~= seq![' ']);
            assert("~"@ =~= seq!['~']);
        }
        let content = chars_of(code[i - 1].as_str());
        assert(content@ == cv[i - 1]);
        let mut numbered: Vec<char> = Vec::new();
        let mut num: Vec<char> = Vec::new();
        push_decimal(&mut num, (i + 1) as u64);
        if num.len() < width {
            repeat_chars(&mut numbered, ' ', width - num.len());
        }
        push_all(&mut numbered, num.as_slice());
        push_all(&mut numbered, lit_chars(" | ").as_slice());
        push_all(&mut numbered, content.as_slice());
        assert(numbered@ =~= right_align(decimal((i + 1) as nat), width as nat) + " | "@ + cv[i - 1]);
        let ghost before = crate::three_address_code_gen::strings_view(ex@);
        let ns = string_from(numbered.as_slice());
        ex.push(ns);
        if i == error_line {
            let (ws, wl) = word_span_at(code[i - 1].as_str(), e.char);
            let extra = if ws > 0 { ws - 1 } else { 0 };
            if width > usize::MAX - 3 || extra > usize::MAX - 3 - width {
                return None;
            }
            let mut under: Vec<char> = Vec::new();
            repeat_chars(&mut under, ' ', width + 3 + extra);
            repeat_chars(&mut under, '~', if wl > 1 { wl } else { 1 });
            let us = string_from(under.as_slice());
            ex.push(us);
            assert(crate::three_address_code_gen::strings_view(ex@) =~= before + seq![ns@, us@]);
            proof {
                assert(seq![ns@, us@] =~= seq![ns@] + seq![us@]);
                lemma_lines_prefix(before, seq![ns@, us@], excerpt_lines(cv, e@, (i + 1) as nat, end as nat, width as nat));
            }
        } else {
            assert(crate::three_address_code_gen::strings_view(ex@) =~= before + seq![ns@]);
            proof {
                assert(seq![ns@] + seq![] =~= seq![ns@]);
                lemma_lines_prefix(before, seq![ns@], excerpt_lines(cv, e@, (i + 1) as nat, end as nat, width as nat));
            }
        }
        i = i + 1;
    }
    let mut out: Vec<String> = Vec::new();
    let mut head = lit_chars("\n[Error]: ");
    push_all(&mut head, chars_of(e.msg.as_str()).as_slice());
    out.push(string_from(head.as_slice()));
    let mut at = lit_chars("--> ");
    push_all(&mut at, chars_of(file_name).as_slice());
    push_all(&mut at, lit_chars(" line:").as_slice());
    push_decimal(&mut at, e.line as u64);
    push_all(&mut at, lit_chars(", char pos :").as_slice());
    push_decimal(&mut at, e.char as u64);
    out.push(string_from(at.as_slice()));
    out.push(string_from(Vec::<char>::new().as_slice()));
    let ghost exv = crate::three_address_code_gen::strings_view(ex@);
    let mut ex = ex;
    out.append(&mut ex);
    out.push(string_from(Vec::<char>::new().as_slice()));
    assert(crate::three_address_code_gen::strings_view(out@) =~= seq![
        "\n[Error]: "@ + e@.msg,
        "--> "@ + file_name@ + " line:"@ + decimal(e@.line as nat) + ", char pos :"@ + decimal(e@.ch as nat),
        seq![],
    ] + exv + seq![seq![]]);
    Some(out)
}

} // verus!
