//! The labels that close conditionals and loops in three-address code:
//! each closing instruction carries one label `LN`, drawn from the label
//! counter, no two carry the same one, each closes a block opened before it
//! under that label, blocks nest properly, and each loop follows its
//! `L_loop` label.
use vstd::prelude::*;
use crate::text::{decimal, digits_value, lemma_decimal_value};
use crate::three_address_code_gen::{
    GenM, TacM, Type, emit, mk_tac, fresh_temp, fresh_label, label_name, eval, call_args, gen_call,
    parse_expr, parse_loop, build_chain, array_assigns, gen_var, emit_params, gen_reas, gen_ret,
    attach, generate, gen_entry, gen_func, gen_block, tac_of, opt_seq, desugar, values_of,
    symbol_ref, lemma_fresh_names_distinct,
};
use crate::variable_types::{TableM, VarM, ReasM, RetM, FuncM, CallM, ValueM, PointerType};
use crate::token::TokenType;

verus! {

/// An instruction that closes a conditional or a loop.
pub open spec fn is_end(t: TacM) -> bool {
    t.tac_type is ConditionalEnd || t.tac_type is LoopEnd
}

/// The number in a closing instruction's label `LN`.
pub open spec fn end_no(t: TacM) -> nat {
    digits_value(t.arguments[0].skip(1))
}

/// A closing instruction carries exactly the label numbered `end_no`, a
/// number in `lo..hi`.
pub open spec fn end_in(t: TacM, lo: nat, hi: nat) -> bool {
    is_end(t) ==> t.arguments == seq![label_name(end_no(t))] && lo <= end_no(t) < hi
}

/// An instruction that opens a conditional or a loop.
pub open spec fn is_start(t: TacM) -> bool {
    t.tac_type is Conditional || t.tac_type is Loop
}

/// `o` opens the block that `e` closes: a conditional for a conditional's
/// end, a loop for a loop's end, with the same label first.
pub open spec fn opens(o: TacM, e: TacM) -> bool {
    &&& o.arguments.len() > 0
    &&& o.arguments[0] == e.arguments[0]
    &&& e.tac_type is ConditionalEnd ==> o.tac_type is Conditional
    &&& e.tac_type is LoopEnd ==> o.tac_type is Loop
}

/// An instruction keeps its kind, its label when it closes a block or is a
/// label, and its first argument when it opens a block.
pub open spec fn keeps(a: TacM, b: TacM) -> bool {
    &&& a.tac_type == b.tac_type
    &&& is_end(a) ==> a.arguments == b.arguments
    &&& a.tac_type is Label ==> a.arguments == b.arguments
    &&& (is_start(a) && a.arguments.len() > 0) ==> b.arguments.len() > 0 && b.arguments[0] == a.arguments[0]
}

/// An instruction that neither opens nor closes a block nor is a label.
pub open spec fn neutral(t: TacM) -> bool {
    !is_start(t) && !is_end(t) && !(t.tac_type is Label)
}

/// Reading instructions with a stack of the blocks open (each its label and
/// whether it is a loop): an opening pushes its block, a closing must close
/// the innermost open block, of its kind and with its label. The open
/// blocks at the end, or nothing where a closing does not match.
pub open spec fn nest(s: Seq<TacM>, st: Seq<(Seq<char>, bool)>) -> Option<Seq<(Seq<char>, bool)>>
    decreases s.len(),
{
    if s.len() == 0 {
        Some(st)
    } else {
        let t = s[0];
        if is_start(t) {
            if t.arguments.len() > 0 {
                nest(s.drop_first(), st.push((t.arguments[0], t.tac_type is Loop)))
            } else {
                None
            }
        } else if is_end(t) {
            if t.arguments.len() > 0 && st.len() > 0 && st.last() == (t.arguments[0], t.tac_type is LoopEnd) {
                nest(s.drop_first(), st.drop_last())
            } else {
                None
            }
        } else {
            nest(s.drop_first(), st)
        }
    }
}

/// Blocks are opened and closed in properly nested pairs.
pub open spec fn balanced(s: Seq<TacM>) -> bool {
    nest(s, seq![]) == Some(Seq::<(Seq<char>, bool)>::empty())
}

/// Every loop opened at `i` is preceded, after `lo`, by the label `L_loop`
/// of its own label `L`.
pub open spec fn loop_labelled(s: Seq<TacM>, lo: int, i: int) -> bool {
    s[i].tac_type is Loop ==> s[i].arguments.len() > 0 && exists|j: int| lo <= j < i && #[trigger] s[j].tac_type is Label
        && s[j].arguments == seq![s[i].arguments[0] + seq!['_', 'l', 'o', 'o', 'p']]
}

proof fn lemma_nest_cat(x: Seq<TacM>, y: Seq<TacM>, st: Seq<(Seq<char>, bool)>)
    ensures
        nest(x + y, st) == match nest(x, st) {
            Some(st2) => nest(y, st2),
            None => None,
        },
    decreases x.len(),
{
    if x.len() == 0 {
        assert(x + y =~= y);
    } else {
        assert((x + y)[0] == x[0]);
        assert((x + y).drop_first() =~= x.drop_first() + y);
        let t = x[0];
        if is_start(t) {
            if t.arguments.len() > 0 {
                lemma_nest_cat(x.drop_first(), y, st.push((t.arguments[0], t.tac_type is Loop)));
            }
        } else if is_end(t) {
            if t.arguments.len() > 0 && st.len() > 0 && st.last() == (t.arguments[0], t.tac_type is LoopEnd) {
                lemma_nest_cat(x.drop_first(), y, st.drop_last());
            }
        } else {
            lemma_nest_cat(x.drop_first(), y, st);
        }
    }
}

proof fn lemma_nest_keeps(a: Seq<TacM>, b: Seq<TacM>, st: Seq<(Seq<char>, bool)>)
    requires
        a.len() == b.len(),
        forall|i: int| 0 <= i < a.len() ==> keeps(a[i], #[trigger] b[i]),
        nest(a, st) is Some,
    ensures
        nest(b, st) == nest(a, st),
    decreases a.len(),
{
    if a.len() > 0 {
        assert(keeps(a[0], b[0]));
        assert forall|i: int| 0 <= i < a.drop_first().len() implies keeps(a.drop_first()[i], #[trigger] b.drop_first()[i]) by {
            assert(keeps(a[i + 1], b[i + 1]));
        }
        let t = a[0];
        if is_start(t) {
            lemma_nest_keeps(a.drop_first(), b.drop_first(), st.push((t.arguments[0], t.tac_type is Loop)));
        } else if is_end(t) {
            lemma_nest_keeps(a.drop_first(), b.drop_first(), st.drop_last());
        } else {
            lemma_nest_keeps(a.drop_first(), b.drop_first(), st);
        }
    }
}

proof fn lemma_nest_lift(x: Seq<TacM>, st0: Seq<(Seq<char>, bool)>, st: Seq<(Seq<char>, bool)>)
    requires
        nest(x, st0) is Some,
    ensures
        nest(x, st + st0) == Some(st + nest(x, st0)->0),
    decreases x.len(),
{
    if x.len() > 0 {
        let t = x[0];
        if is_start(t) {
            let p = (t.arguments[0], t.tac_type is Loop);
            assert((st + st0).push(p) =~= st + st0.push(p));
            lemma_nest_lift(x.drop_first(), st0.push(p), st);
        } else if is_end(t) {
            assert((st + st0).last() == st0.last());
            assert((st + st0).drop_last() =~= st + st0.drop_last());
            lemma_nest_lift(x.drop_first(), st0.drop_last(), st);
        } else {
            lemma_nest_lift(x.drop_first(), st0, st);
        }
    } else {
    }
}

proof fn lemma_nest_closes(x: Seq<TacM>, st: Seq<(Seq<char>, bool)>, p: (Seq<char>, bool), extra: Seq<(Seq<char>, bool)>)
    requires
        nest(x, st.push(p) + extra) matches Some(r) && r.len() <= st.len(),
    ensures
        exists|j: int| 0 <= j < x.len() && is_end(#[trigger] x[j]) && x[j].arguments.len() > 0
            && (x[j].arguments[0], x[j].tac_type is LoopEnd) == p,
    decreases x.len(),
{
    let cur = st.push(p) + extra;
    if x.len() == 0 {
        assert(cur.len() > st.len());
    } else {
        let t = x[0];
        if is_start(t) {
            let q = (t.arguments[0], t.tac_type is Loop);
            assert(cur.push(q) =~= st.push(p) + extra.push(q));
            lemma_nest_closes(x.drop_first(), st, p, extra.push(q));
            let j = choose|j: int| 0 <= j < x.drop_first().len() && is_end(#[trigger] x.drop_first()[j])
                && x.drop_first()[j].arguments.len() > 0 && (x.drop_first()[j].arguments[0], x.drop_first()[j].tac_type is LoopEnd) == p;
            assert(x[j + 1] == x.drop_first()[j]);
        } else if is_end(t) {
            if extra.len() > 0 {
                assert(cur.drop_last() =~= st.push(p) + extra.drop_last());
                lemma_nest_closes(x.drop_first(), st, p, extra.drop_last());
                let j = choose|j: int| 0 <= j < x.drop_first().len() && is_end(#[trigger] x.drop_first()[j])
                    && x.drop_first()[j].arguments.len() > 0 && (x.drop_first()[j].arguments[0], x.drop_first()[j].tac_type is LoopEnd) == p;
                assert(x[j + 1] == x.drop_first()[j]);
            } else {
                assert(cur =~= st.push(p));
                assert(is_end(x[0]));
            }
        } else {
            lemma_nest_closes(x.drop_first(), st, p, extra);
            let j = choose|j: int| 0 <= j < x.drop_first().len() && is_end(#[trigger] x.drop_first()[j])
                && x.drop_first()[j].arguments.len() > 0 && (x.drop_first()[j].arguments[0], x.drop_first()[j].tac_type is LoopEnd) == p;
            assert(x[j + 1] == x.drop_first()[j]);
        }
    }
}

/// In properly nested code every opening instruction is closed later by a
/// closing of its kind under its label.
pub proof fn lemma_balanced_closes(s: Seq<TacM>, i: int)
    requires
        balanced(s),
        0 <= i < s.len(),
        is_start(s[i]),
    ensures
        exists|j: int| i < j < s.len() && is_end(#[trigger] s[j]) && opens(s[i], s[j]),
{
    let x = s.take(i);
    let y = s.skip(i);
    assert(s =~= x + y);
    lemma_nest_cat(x, y, seq![]);
    let st = nest(x, seq![])->0;
    let t = s[i];
    assert(y[0] == t);
    let p = (t.arguments[0], t.tac_type is Loop);
    assert(nest(y, st) == nest(y.drop_first(), st.push(p)));
    assert(st.push(p) + Seq::<(Seq<char>, bool)>::empty() =~= st.push(p));
    lemma_nest_closes(y.drop_first(), st, p, seq![]);
    let j = choose|j: int| 0 <= j < y.drop_first().len() && is_end(#[trigger] y.drop_first()[j])
        && y.drop_first()[j].arguments.len() > 0 && (y.drop_first()[j].arguments[0], y.drop_first()[j].tac_type is LoopEnd) == p;
    assert(s[i + 1 + j] == y.drop_first()[j]);
    assert(opens(s[i], s[i + 1 + j]));
}

proof fn lemma_nest_neutral(x: Seq<TacM>, st: Seq<(Seq<char>, bool)>)
    requires
        forall|i: int| 0 <= i < x.len() ==> !is_start(#[trigger] x[i]) && !is_end(x[i]),
    ensures
        nest(x, st) == Some(st),
    decreases x.len(),
{
    if x.len() > 0 {
        assert(!is_start(x[0]) && !is_end(x[0]));
        assert forall|i: int| 0 <= i < x.drop_first().len() implies !is_start(#[trigger] x.drop_first()[i]) && !is_end(x.drop_first()[i]) by {
            assert(!is_start(x[i + 1]) && !is_end(x[i + 1]));
        }
        lemma_nest_neutral(x.drop_first(), st);
    }
}

/// From `g` to `g1`: the earlier instructions keep their kind and closing
/// labels, the label counter does not go down, and every closing
/// instruction added carries its own label drawn from the counter meanwhile.
pub open spec fn ends_core(g: GenM, g1: GenM) -> bool {
    &&& g.tac.len() <= g1.tac.len()
    &&& g.label <= g1.label
    &&& forall|i: int| 0 <= i < g.tac.len() ==> keeps(g.tac[i], #[trigger] g1.tac[i])
    &&& forall|i: int| g.tac.len() <= i < g1.tac.len() ==> end_in(#[trigger] g1.tac[i], g.label, g1.label)
    &&& forall|i: int, j: int|
        g.tac.len() <= i < j < g1.tac.len() && is_end(#[trigger] g1.tac[i]) && is_end(#[trigger] g1.tac[j])
            ==> end_no(g1.tac[i]) != end_no(g1.tac[j])
    &&& forall|i: int| g.tac.len() <= i < g1.tac.len() && is_end(#[trigger] g1.tac[i])
        ==> exists|j: int| g.tac.len() <= j < i && opens(#[trigger] g1.tac[j], g1.tac[i])
}

/// As `ends_core`, and the added instructions open and close blocks in
/// properly nested pairs, each loop after its `L_loop` label.
pub open spec fn ends_grow(g: GenM, g1: GenM) -> bool {
    &&& ends_core(g, g1)
    &&& balanced(g1.tac.subrange(g.tac.len() as int, g1.tac.len() as int))
    &&& forall|i: int| g.tac.len() <= i < g1.tac.len() ==> #[trigger] loop_labelled(g1.tac, g.tac.len() as int, i)
}

/// From `g` to `g1` no block is opened or closed: as `ends_grow`, with the
/// label counter unchanged and no closing instruction added.
pub open spec fn plain(g: GenM, g1: GenM) -> bool {
    &&& g.tac.len() <= g1.tac.len()
    &&& g.label == g1.label
    &&& forall|i: int| 0 <= i < g.tac.len() ==> keeps(g.tac[i], #[trigger] g1.tac[i])
    &&& forall|i: int| g.tac.len() <= i < g1.tac.len() ==> neutral(#[trigger] g1.tac[i])
}

proof fn lemma_plain_refl(g: GenM)
    ensures
        plain(g, g),
{
}

proof fn lemma_plain_trans(a: GenM, b: GenM, c: GenM)
    requires
        plain(a, b),
        plain(b, c),
    ensures
        plain(a, c),
{
    assert forall|i: int| 0 <= i < a.tac.len() implies keeps(a.tac[i], #[trigger] c.tac[i]) by {
        assert(keeps(a.tac[i], b.tac[i]));
        assert(keeps(b.tac[i], c.tac[i]));
    }
    assert forall|i: int| a.tac.len() <= i < c.tac.len() implies neutral(#[trigger] c.tac[i]) by {
        if i < b.tac.len() {
            assert(neutral(b.tac[i]));
            assert(keeps(b.tac[i], c.tac[i]));
        }
    }
}

proof fn lemma_emit_plain(g: GenM, t: TacM)
    requires
        neutral(t),
    ensures
        plain(g, emit(g, t)),
{
    let g1 = emit(g, t);
    assert forall|i: int| 0 <= i < g.tac.len() implies keeps(g.tac[i], #[trigger] g1.tac[i]) by {
        assert(g1.tac[i] == g.tac[i]);
    }
}

proof fn lemma_plain_grows(g: GenM, g1: GenM)
    requires
        plain(g, g1),
    ensures
        ends_grow(g, g1),
{
    let seg = g1.tac.subrange(g.tac.len() as int, g1.tac.len() as int);
    assert forall|i: int| 0 <= i < seg.len() implies !is_start(#[trigger] seg[i]) && !is_end(seg[i]) by {
        assert(seg[i] == g1.tac[i + g.tac.len()]);
        assert(neutral(g1.tac[i + g.tac.len()]));
    }
    lemma_nest_neutral(seg, seq![]);
    assert forall|i: int| g.tac.len() <= i < g1.tac.len() implies #[trigger] loop_labelled(g1.tac, g.tac.len() as int, i) by {
        assert(neutral(g1.tac[i]));
    }
}

proof fn lemma_core_trans(a: GenM, b: GenM, c: GenM)
    requires
        ends_core(a, b),
        ends_core(b, c),
    ensures
        ends_core(a, c),
{
    assert forall|i: int| 0 <= i < a.tac.len() implies keeps(a.tac[i], #[trigger] c.tac[i]) by {
        assert(keeps(a.tac[i], b.tac[i]));
        assert(keeps(b.tac[i], c.tac[i]));
    }
    assert forall|i: int| a.tac.len() <= i < c.tac.len() implies end_in(#[trigger] c.tac[i], a.label, c.label) by {
        if i < b.tac.len() {
            assert(end_in(b.tac[i], a.label, b.label));
            assert(keeps(b.tac[i], c.tac[i]));
        } else {
            assert(end_in(c.tac[i], b.label, c.label));
        }
    }
    assert forall|i: int, j: int|
        a.tac.len() <= i < j < c.tac.len() && is_end(#[trigger] c.tac[i]) && is_end(#[trigger] c.tac[j])
            implies end_no(c.tac[i]) != end_no(c.tac[j]) by {
        if j < b.tac.len() {
            assert(keeps(b.tac[i], c.tac[i]));
            assert(keeps(b.tac[j], c.tac[j]));
            assert(is_end(b.tac[i]) && is_end(b.tac[j]));
        } else if i < b.tac.len() {
            assert(keeps(b.tac[i], c.tac[i]));
            assert(end_in(b.tac[i], a.label, b.label));
            assert(end_in(c.tac[j], b.label, c.label));
        } else {
        }
    }
    assert forall|i: int| a.tac.len() <= i < c.tac.len() && is_end(#[trigger] c.tac[i])
        implies exists|j: int| a.tac.len() <= j < i && opens(#[trigger] c.tac[j], c.tac[i]) by {
        if i < b.tac.len() {
            assert(keeps(b.tac[i], c.tac[i]));
            assert(is_end(b.tac[i]));
            let j = choose|j: int| a.tac.len() <= j < i && opens(#[trigger] b.tac[j], b.tac[i]);
            assert(keeps(b.tac[j], c.tac[j]));
            assert(opens(c.tac[j], c.tac[i]));
        } else {
            let j = choose|j: int| b.tac.len() <= j < i && opens(#[trigger] c.tac[j], c.tac[i]);
            assert(opens(c.tac[j], c.tac[i]));
        }
    }
}

proof fn lemma_grow_trans(a: GenM, b: GenM, c: GenM)
    requires
        ends_grow(a, b),
        ends_grow(b, c),
    ensures
        ends_grow(a, c),
{
    lemma_core_trans(a, b, c);
    let sb = b.tac.subrange(a.tac.len() as int, b.tac.len() as int);
    let s1 = c.tac.subrange(a.tac.len() as int, b.tac.len() as int);
    let s2 = c.tac.subrange(b.tac.len() as int, c.tac.len() as int);
    assert forall|i: int| 0 <= i < sb.len() implies keeps(sb[i], #[trigger] s1[i]) by {
        assert(keeps(b.tac[i + a.tac.len()], c.tac[i + a.tac.len()]));
    }
    lemma_nest_keeps(sb, s1, seq![]);
    lemma_nest_cat(s1, s2, seq![]);
    assert(c.tac.subrange(a.tac.len() as int, c.tac.len() as int) =~= s1 + s2);
    assert forall|i: int| a.tac.len() <= i < c.tac.len() implies #[trigger] loop_labelled(c.tac, a.tac.len() as int, i) by {
        if i < b.tac.len() {
            assert(loop_labelled(b.tac, a.tac.len() as int, i));
            assert(keeps(b.tac[i], c.tac[i]));
            if c.tac[i].tac_type is Loop {
                let j = choose|j: int| a.tac.len() <= j < i && #[trigger] b.tac[j].tac_type is Label
                    && b.tac[j].arguments == seq![b.tac[i].arguments[0] + seq!['_', 'l', 'o', 'o', 'p']];
                assert(keeps(b.tac[j], c.tac[j]));
                assert(c.tac[j].tac_type is Label);
            }
        } else {
            assert(loop_labelled(c.tac, b.tac.len() as int, i));
            if c.tac[i].tac_type is Loop {
                let j = choose|j: int| b.tac.len() <= j < i && #[trigger] c.tac[j].tac_type is Label
                    && c.tac[j].arguments == seq![c.tac[i].arguments[0] + seq!['_', 'l', 'o', 'o', 'p']];
                assert(c.tac[j].tac_type is Label);
            }
        }
    }
}

proof fn lemma_fresh_temp_plain(g: GenM)
    ensures
        fresh_temp(g) matches Some((g1, _)) ==> plain(g, g1),
{
}

proof fn lemma_eval_plain(g: GenM, v: ValueM, vt: Option<TokenType>)
    ensures
        eval(g, v, vt) matches Some((g1, _, _)) ==> plain(g, g1),
{
    match v {
        ValueM::Var(_) => {},
        ValueM::FuncCall(fc) => {
            if let Some((g1, tmp)) = fresh_temp(g) {
                lemma_gen_call_plain(g1, fc);
                if let Some(g2) = gen_call(g1, fc) {
                    lemma_plain_trans(g, g1, g2);
                    lemma_emit_plain(g2, mk_tac(Type::GetReturn, seq![], None, Some(tmp), vt, false));
                    lemma_plain_trans(g, g2, emit(g2, mk_tac(Type::GetReturn, seq![], None, Some(tmp), vt, false)));
                }
            }
        },
        ValueM::Deref(n) => {
            if let Some((g1, tmp)) = fresh_temp(g) {
                lemma_emit_plain(g1, mk_tac(Type::Deref, seq![n], None, Some(tmp), vt, true));
                lemma_plain_trans(g, g1, emit(g1, mk_tac(Type::Deref, seq![n], None, Some(tmp), vt, true)));
            }
        },
        ValueM::Ref(n) => {
            if let Some((g1, tmp)) = fresh_temp(g) {
                lemma_emit_plain(g1, mk_tac(Type::AddressOf, seq![n], None, Some(tmp), vt, true));
                lemma_plain_trans(g, g1, emit(g1, mk_tac(Type::AddressOf, seq![n], None, Some(tmp), vt, true)));
            }
        },
        ValueM::Index(a, i) => {
            if let Some((g1, tmp)) = fresh_temp(g) {
                lemma_emit_plain(g1, mk_tac(Type::ArrayIndex, seq![a, i], None, Some(tmp), vt, false));
                lemma_plain_trans(g, g1, emit(g1, mk_tac(Type::ArrayIndex, seq![a, i], None, Some(tmp), vt, false)));
            }
        },
    }
}

proof fn lemma_call_args_plain(g: GenM, ps: Seq<TableM>, args: Seq<Seq<char>>)
    ensures
        call_args(g, ps, args) matches Some((g1, _)) ==> plain(g, g1),
    decreases ps.len(),
{
    if ps.len() > 0 {
        let p = ps[0];
        lemma_call_args_plain(g, ps.drop_first(), args.push(crate::three_address_code_gen::call_arg_text(p)));
        if let ValueM::Index(a, i) = crate::three_address_code_gen::table_value(p) {
            if let Some((g1, tmp)) = fresh_temp(g) {
                let g2 = emit(g1, mk_tac(Type::ArrayIndex, seq![a, i], None, Some(tmp), None, false));
                lemma_emit_plain(g1, mk_tac(Type::ArrayIndex, seq![a, i], None, Some(tmp), None, false));
                lemma_plain_trans(g, g1, g2);
                lemma_call_args_plain(g2, ps.drop_first(), args.push(tmp));
                if let Some((g3, _)) = call_args(g2, ps.drop_first(), args.push(tmp)) {
                    lemma_plain_trans(g, g2, g3);
                }
            }
        }
    }
}

proof fn lemma_gen_call_plain(g: GenM, c: CallM)
    ensures
        gen_call(g, c) matches Some(g1) ==> plain(g, g1),
{
    lemma_call_args_plain(g, opt_seq(c.parameters), seq![c.name]);
    if let Some((g1, args)) = call_args(g, opt_seq(c.parameters), seq![c.name]) {
        lemma_emit_plain(g1, mk_tac(Type::Call, args, None, None, None, false));
        lemma_plain_trans(g, g1, emit(g1, mk_tac(Type::Call, args, None, None, None, false)));
    }
}

/// The instruction kinds that expressions are computed with.
pub open spec fn expr_kind(tt: Type) -> bool {
    tt is Variable || tt is Reasingment || tt is Return
}

proof fn lemma_parse_expr_plain(
    g: GenM,
    tokens: Seq<ValueM>,
    pos: nat,
    min_prec: nat,
    tt: Type,
    target: Seq<char>,
    is_top: bool,
    vt: Option<TokenType>,
)
    requires
        expr_kind(tt),
    ensures
        parse_expr(g, tokens, pos, min_prec, tt, target, is_top, vt) matches Some((g1, _, _)) ==> plain(g, g1),
    decreases tokens.len() - pos, 1nat,
{
    if pos < tokens.len() {
        lemma_eval_plain(g, tokens[pos as int], vt);
        if let Some((g1, left, _)) = eval(g, tokens[pos as int], vt) {
            lemma_parse_loop_plain(g1, tokens, pos + 1, left, min_prec, tt, target, is_top, vt);
            if let Some((g2, _, _)) = parse_loop(g1, tokens, pos + 1, left, min_prec, tt, target, is_top, vt) {
                lemma_plain_trans(g, g1, g2);
            }
        }
    }
}

proof fn lemma_parse_loop_plain(
    g: GenM,
    tokens: Seq<ValueM>,
    pos: nat,
    left: Seq<char>,
    min_prec: nat,
    tt: Type,
    target: Seq<char>,
    is_top: bool,
    vt: Option<TokenType>,
)
    requires
        expr_kind(tt),
    ensures
        parse_loop(g, tokens, pos, left, min_prec, tt, target, is_top, vt) matches Some((g1, _, _)) ==> plain(g, g1),
    decreases tokens.len() - pos, 0nat,
{
    if pos < tokens.len() && tokens[pos as int] is Var {
        let op = crate::three_address_code_gen::op_of(tokens[pos as int]->Var_0);
        let prec = crate::three_address_code_gen::precedence(op);
        if prec >= min_prec {
            lemma_parse_expr_plain(g, tokens, pos + 1, prec + 1, tt, target, false, vt);
            if let Some((g2, pos2, right)) = parse_expr(g, tokens, pos + 1, prec + 1, tt, target, false, vt) {
                if pos < pos2 <= tokens.len() {
                    let named = if is_top && !crate::three_address_code_gen::continues_at(tokens, pos2, min_prec) {
                        Some((g2, target))
                    } else {
                        fresh_temp(g2)
                    };
                    if let Some((g3, name)) = named {
                        let t = mk_tac(tt, seq![left, right], Some(op), Some(name), vt, false);
                        let g4 = emit(g3, t);
                        lemma_plain_trans(g, g2, g3);
                        lemma_emit_plain(g3, t);
                        lemma_plain_trans(g, g3, g4);
                        lemma_parse_loop_plain(g4, tokens, pos2, name, min_prec, tt, target, is_top, vt);
                        if let Some((g5, _, _)) = parse_loop(g4, tokens, pos2, name, min_prec, tt, target, is_top, vt) {
                            lemma_plain_trans(g, g4, g5);
                        }
                    }
                }
            }
        }
    }
}

proof fn lemma_build_chain_plain(g: GenM, tokens: Seq<ValueM>, target: Seq<char>, tt: Type, vt: Option<TokenType>)
    requires
        expr_kind(tt),
    ensures
        build_chain(g, tokens, target, tt, vt) matches Some(g1) ==> plain(g, g1),
{
    if tokens.len() == 1 {
        match tokens[0] {
            ValueM::Deref(n) => lemma_emit_plain(g, mk_tac(Type::Deref, seq![n], None, Some(target), vt, true)),
            ValueM::Ref(n) => lemma_emit_plain(g, mk_tac(Type::AddressOf, seq![n], None, Some(target), vt, true)),
            other => {
                lemma_eval_plain(g, other, vt);
                if let Some((g1, operand, is_ptr)) = eval(g, other, vt) {
                    let t = mk_tac(tt, seq![operand], None, Some(target), vt, is_ptr);
                    lemma_emit_plain(g1, t);
                    lemma_plain_trans(g, g1, emit(g1, t));
                }
            },
        }
    } else if tokens.len() > 1 {
        lemma_parse_expr_plain(g, tokens, 0, 0, tt, target, true, vt);
    }
}

proof fn lemma_array_assigns_plain(g: GenM, vals: Seq<ValueM>, idx: nat, name: Seq<char>, vt: Option<TokenType>)
    ensures
        array_assigns(g, vals, idx, name, vt) matches Some(g1) ==> plain(g, g1),
    decreases vals.len() - idx,
{
    if idx < vals.len() {
        lemma_eval_plain(g, vals[idx as int], vt);
        if let Some((g1, val, _)) = eval(g, vals[idx as int], vt) {
            let t = mk_tac(Type::ArrayAssign, seq![decimal(idx), val], None, Some(name), vt, false);
            lemma_emit_plain(g1, t);
            lemma_plain_trans(g, g1, emit(g1, t));
            lemma_array_assigns_plain(emit(g1, t), vals, idx + 1, name, vt);
            if let Some(g2) = array_assigns(emit(g1, t), vals, idx + 1, name, vt) {
                lemma_plain_trans(g, emit(g1, t), g2);
            }
        }
    }
}

proof fn lemma_gen_var_plain(g: GenM, v: VarM)
    ensures
        gen_var(g, v) matches Some(g1) ==> plain(g, g1),
{
    let named = if v.name == Some(seq!['_']) {
        fresh_temp(g)
    } else {
        Some((g, opt_seq(v.name)))
    };
    if let Some((g1, name)) = named {
        let vt = Some(v.token_type);
        if v.is_array {
            let size: nat = match v.array_size {
                Some(n) => n as nat,
                None => 1,
            };
            let t = mk_tac(Type::ArrayDecl, seq![decimal(size)], None, Some(name), vt, false);
            let g2 = emit(g1, t);
            lemma_emit_plain(g1, t);
            lemma_plain_trans(g, g1, g2);
            let g3 = GenM { mem: g2.mem + size * 16, ..g2 };
            lemma_array_assigns_plain(g3, opt_seq(v.value), 0, name, vt);
            if let Some(g4) = array_assigns(g3, opt_seq(v.value), 0, name, vt) {
                lemma_plain_trans(g, g3, g4);
            }
        } else {
            lemma_build_chain_plain(g1, opt_seq(v.value), name, Type::Variable, vt);
            if let Some(g2) = build_chain(g1, opt_seq(v.value), name, Type::Variable, vt) {
                lemma_plain_trans(g, g1, g2);
            }
        }
    }
}

proof fn lemma_emit_params_plain(g: GenM, ps: Seq<TableM>)
    ensures
        plain(g, emit_params(g, ps)),
    decreases ps.len(),
{
    if ps.len() > 0 {
        let p = ps[0];
        let t = match p {
            TableM::Variable(v) => mk_tac(Type::Param, seq![opt_seq(v.name)], None, None, Some(v.token_type), v.ptr is Some),
            _ => mk_tac(Type::Param, seq![crate::three_address_code_gen::operand_of(p)], None, None, None, false),
        };
        lemma_emit_plain(g, t);
        lemma_emit_params_plain(emit(g, t), ps.drop_first());
        lemma_plain_trans(g, emit(g, t), emit_params(emit(g, t), ps.drop_first()));
    }
}

proof fn lemma_rhs_plain(g: GenM, tokens: Seq<ValueM>, vt: Option<TokenType>)
    ensures
        (match fresh_temp(g) {
            None => None,
            Some((g1, tmp)) => match build_chain(g1, tokens, tmp, Type::Variable, vt) {
                None => None,
                Some(g2) => Some((g2, tmp)),
            },
        }) matches Some((g3, _)) ==> plain(g, g3),
{
    if let Some((g1, tmp)) = fresh_temp(g) {
        lemma_build_chain_plain(g1, tokens, tmp, Type::Variable, vt);
        if let Some(g2) = build_chain(g1, tokens, tmp, Type::Variable, vt) {
            lemma_plain_trans(g, g1, g2);
        }
    }
}

proof fn lemma_gen_reas_plain(g: GenM, r: ReasM)
    ensures
        gen_reas(g, r) matches Some(g1) ==> plain(g, g1),
{
    let target_ref = symbol_ref(r.target, r.target_scope);
    let vt = Some(r.token_type);
    let left = match r.array_index {
        Some(i) => ValueM::Index(r.name, i),
        None => ValueM::Var(r.name),
    };
    let tokens = desugar(values_of(opt_seq(r.parameters)), left);
    lemma_rhs_plain(g, tokens, vt);
    if r.array_index is Some {
        let ai = r.array_index->0;
        lemma_eval_plain(g, tokens[0], vt);
        let rhs = if tokens.len() == 1 {
            match eval(g, tokens[0], vt) {
                None => None,
                Some((g1, val, _)) => Some((g1, val)),
            }
        } else {
            match fresh_temp(g) {
                None => None,
                Some((g1, tmp)) => match build_chain(g1, tokens, tmp, Type::Variable, vt) {
                    None => None,
                    Some(g2) => Some((g2, tmp)),
                },
            }
        };
        if let Some((g3, val)) = rhs {
            let t = mk_tac(Type::ArrayAssign, seq![ai, val], None, Some(r.name), vt, false);
            lemma_emit_plain(g3, t);
            lemma_plain_trans(g, g3, emit(g3, t));
        }
    } else if r.ptr == Some(PointerType::Pointer) {
        let rhs = if tokens.len() == 1 {
            match tokens[0] {
                ValueM::Var(s) => Some((g, s)),
                ValueM::FuncCall(f) => match fresh_temp(g) {
                    None => None,
                    Some((g1, tmp)) => match gen_call(g1, f) {
                        None => None,
                        Some(g2) => Some((emit(g2, mk_tac(Type::GetReturn, seq![], None, Some(tmp), vt, false)), tmp)),
                    },
                },
                _ => match fresh_temp(g) {
                    None => None,
                    Some((g1, tmp)) => match build_chain(g1, tokens, tmp, Type::Variable, vt) {
                        None => None,
                        Some(g2) => Some((g2, tmp)),
                    },
                },
            }
        } else {
            match fresh_temp(g) {
                None => None,
                Some((g1, tmp)) => match build_chain(g1, tokens, tmp, Type::Variable, vt) {
                    None => None,
                    Some(g2) => Some((g2, tmp)),
                },
            }
        };
        if tokens.len() == 1 {
            if let ValueM::FuncCall(f) = tokens[0] {
                if let Some((g1, tmp)) = fresh_temp(g) {
                    lemma_gen_call_plain(g1, f);
                    if let Some(g2) = gen_call(g1, f) {
                        lemma_plain_trans(g, g1, g2);
                        let t = mk_tac(Type::GetReturn, seq![], None, Some(tmp), vt, false);
                        lemma_emit_plain(g2, t);
                        lemma_plain_trans(g, g2, emit(g2, t));
                    }
                }
            }
        }
        if let Some((g3, val)) = rhs {
            assert(plain(g, g3));
            let t = mk_tac(Type::DerefAssign, seq![r.name, val], None, Some(r.name), vt, false);
            lemma_emit_plain(g3, t);
            lemma_plain_trans(g, g3, emit(g3, t));
        }
    } else {
        lemma_build_chain_plain(g, tokens, target_ref, Type::Reasingment, vt);
        if let Some(g1) = build_chain(g, tokens, target_ref, Type::Reasingment, vt) {
            if g1.tac.len() > 0 {
                let g2 = GenM { tac: g1.tac.update(g1.tac.len() - 1, TacM { result: Some(r.name), ..g1.tac.last() }), ..g1 };
                assert(plain(g1, g2)) by {
                    assert forall|i: int| 0 <= i < g1.tac.len() implies keeps(g1.tac[i], #[trigger] g2.tac[i]) by {
                        if i == g1.tac.len() - 1 {
                            assert(g2.tac[i] == TacM { result: Some(r.name), ..g1.tac.last() });
                        } else {
                            assert(g2.tac[i] == g1.tac[i]);
                        }
                    }
                }
                lemma_plain_trans(g, g1, g2);
            }
        }
    }
}

proof fn lemma_gen_ret_plain(g: GenM, r: RetM)
    ensures
        gen_ret(g, r) matches Some(g1) ==> plain(g, g1),
{
    let vt = match g.ret {
        Some(t) => Some(t),
        None => match r.value {
            Some(v) => Some(v.token_type),
            None => None,
        },
    };
    let tokens = match r.value {
        Some(v) => opt_seq(v.value),
        None => seq![],
    };
    if tokens.len() == 0 {
        lemma_emit_plain(g, mk_tac(Type::Return, seq![], None, None, g.ret, false));
    } else if let Some((g1, target)) = fresh_temp(g) {
        lemma_build_chain_plain(g1, tokens, target, Type::Return, vt);
        if let Some(g2) = build_chain(g1, tokens, target, Type::Return, vt) {
            lemma_plain_trans(g, g1, g2);
        }
    }
}

proof fn lemma_generate_grows(g: GenM, entries: Seq<TableM>)
    ensures
        generate(g, entries) matches Some(g1) ==> ends_grow(g, g1),
    decreases entries, 0nat,
{
    if entries.len() > 0 {
        lemma_gen_entry_grows(g, entries[0]);
        if let Some(g1) = gen_entry(g, entries[0]) {
            lemma_generate_grows(g1, entries.drop_first());
            if let Some(g2) = generate(g1, entries.drop_first()) {
                lemma_grow_trans(g, g1, g2);
            }
        }
    } else {
        lemma_plain_refl(g);
    }
}

proof fn lemma_gen_entry_grows(g: GenM, e: TableM)
    ensures
        gen_entry(g, e) matches Some(g1) ==> ends_grow(g, g1),
    decreases e, 2nat,
{
    match e {
        TableM::Variable(v) => {
            lemma_gen_var_plain(g, v);
        },
        TableM::Function(f) => lemma_gen_func_grows(g, f),
        TableM::FunctionCall(c) => {
            lemma_gen_call_plain(g, c);
        },
        TableM::Reasingment(r) => {
            lemma_gen_reas_plain(g, r);
        },
        TableM::Conditional(c) => lemma_gen_block_grows(g, Type::Conditional, Type::ConditionalEnd, c.condition, c.table),
        TableM::Loop(l) => lemma_gen_block_grows(g, Type::Loop, Type::LoopEnd, l.condition, l.table),
        TableM::Return(r) => {
            lemma_gen_ret_plain(g, r);
        },
        _ => {
            lemma_plain_refl(g);
        },
    }
    if let Some(g1) = gen_entry(g, e) {
        match e {
            TableM::Variable(_) | TableM::FunctionCall(_) | TableM::Reasingment(_) | TableM::Return(_) => {
                lemma_plain_grows(g, g1);
            },
            TableM::Function(_) | TableM::Conditional(_) | TableM::Loop(_) => {},
            _ => {
                lemma_plain_grows(g, g1);
            },
        }
    }
}

proof fn lemma_gen_func_grows(g: GenM, f: FuncM)
    ensures
        gen_func(g, f) matches Some(g1) ==> ends_grow(g, g1),
    decreases f, 0nat,
{
    let g1 = GenM { mem: 0, ret: f.return_type, ..g };
    let t = mk_tac(Type::Function, seq![opt_seq(f.name)], None, None, None, false);
    let g2 = emit(g1, t);
    let idx = g2.tac.len() - 1;
    let params = opt_seq(f.parameters);
    lemma_emit_plain(g1, t);
    lemma_emit_params_plain(g2, params);
    lemma_plain_trans(g1, g2, emit_params(g2, params));
    let g3 = GenM { mem: params.len() * 16, ..emit_params(g2, params) };
    assert(plain(g, g3));
    lemma_plain_grows(g, g3);
    lemma_generate_grows(g3, f.table);
    if let Some(g4) = generate(g3, f.table) {
        lemma_grow_trans(g, g3, g4);
        if g4.tac.len() > idx {
            let g5 = GenM {
                tac: g4.tac.update(idx, TacM { arguments: g4.tac[idx].arguments.push(decimal(g4.mem)), ..g4.tac[idx] }),
                ..g4
            };
            assert(g3.tac[idx as int].tac_type is Function);
            assert(keeps(g3.tac[idx as int], g4.tac[idx as int]));
            assert(ends_grow(g4, g5)) by {
                assert forall|i: int| 0 <= i < g4.tac.len() implies keeps(g4.tac[i], #[trigger] g5.tac[i]) by {
                    if i != idx {
                        assert(g5.tac[i] == g4.tac[i]);
                    }
                }
            }
            lemma_grow_trans(g, g4, g5);
        }
    }
}

proof fn lemma_label_no(k: nat)
    ensures
        digits_value(label_name(k).skip(1)) == k,
{
    assert(label_name(k).skip(1) =~= decimal(k));
    lemma_decimal_value(k);
}

/// What the head of a block adds, from `g` to `g4`: the label counter moves
/// one on, no block is closed, the instructions added open exactly the block
/// with label `label` (a loop when `lp`), the last of them opening it, and a
/// loop's `L_loop` label comes first.
pub open spec fn head_ok(g: GenM, g4: GenM, label: Seq<char>, lp: bool) -> bool {
    &&& g.tac.len() < g4.tac.len()
    &&& g4.label == g.label + 1
    &&& forall|i: int| 0 <= i < g.tac.len() ==> keeps(g.tac[i], #[trigger] g4.tac[i])
    &&& forall|i: int| g.tac.len() <= i < g4.tac.len() ==> !is_end(#[trigger] g4.tac[i])
    &&& nest(g4.tac.subrange(g.tac.len() as int, g4.tac.len() as int), seq![]) == Some(seq![(label, lp)])
    &&& forall|i: int| g.tac.len() <= i < g4.tac.len() ==> #[trigger] loop_labelled(g4.tac, g.tac.len() as int, i)
    &&& is_start(g4.tac.last()) && g4.tac.last().arguments.len() > 0 && g4.tac.last().arguments[0] == label
}

proof fn lemma_block_head(g: GenM, g1: GenM, g2: GenM, g3: GenM, t2: TacM, label: Seq<char>, start: Type)
    requires
        start is Conditional || start is Loop,
        g1 == (GenM { label: g.label + 1, ..g }),
        start is Loop ==> g2 == emit(g1, mk_tac(Type::Label, seq![label + seq!['_', 'l', 'o', 'o', 'p']], None, None, None, false)),
        !(start is Loop) ==> g2 == g1,
        plain(g2, g3),
        t2.tac_type == start,
        t2.arguments.len() > 0 && t2.arguments[0] == label,
    ensures
        head_ok(g, emit(g3, t2), label, start is Loop),
{
    let g4 = emit(g3, t2);
    let lp = start is Loop;
    assert forall|i: int| 0 <= i < g.tac.len() implies keeps(g.tac[i], #[trigger] g4.tac[i]) by {
        assert(g2.tac[i] == g.tac[i]);
        assert(keeps(g2.tac[i], g3.tac[i]));
        assert(g4.tac[i] == g3.tac[i]);
    }
    // Before the opening instruction every added instruction is neutral or the loop label.
    assert forall|i: int| g.tac.len() <= i < g3.tac.len() implies !is_start(#[trigger] g3.tac[i]) && !is_end(g3.tac[i]) by {
        if i < g2.tac.len() {
            assert(g2.tac[i].tac_type is Label);
            assert(keeps(g2.tac[i], g3.tac[i]));
        } else {
            assert(neutral(g3.tac[i]));
        }
    }
    let pre = g4.tac.subrange(g.tac.len() as int, g3.tac.len() as int);
    assert forall|i: int| 0 <= i < pre.len() implies !is_start(#[trigger] pre[i]) && !is_end(pre[i]) by {
        assert(pre[i] == g3.tac[i + g.tac.len()]);
    }
    lemma_nest_neutral(pre, seq![]);
    lemma_nest_cat(pre, seq![t2], seq![]);
    assert(g4.tac.subrange(g.tac.len() as int, g4.tac.len() as int) =~= pre + seq![t2]);
    assert(nest(seq![t2].drop_first(), seq![(label, lp)]) == Some(seq![(label, lp)]));
    assert(Seq::<(Seq<char>, bool)>::empty().push((label, lp)) =~= seq![(label, lp)]);
    assert forall|i: int| g.tac.len() <= i < g4.tac.len() implies !is_end(#[trigger] g4.tac[i]) by {
        if i < g3.tac.len() {
            assert(g4.tac[i] == g3.tac[i]);
        }
    }
    assert forall|i: int| g.tac.len() <= i < g4.tac.len() implies #[trigger] loop_labelled(g4.tac, g.tac.len() as int, i) by {
        if i < g3.tac.len() {
            assert(g4.tac[i] == g3.tac[i]);
            if i < g2.tac.len() {
                assert(g2.tac[i].tac_type is Label);
                assert(keeps(g2.tac[i], g3.tac[i]));
            } else {
                assert(neutral(g3.tac[i]));
            }
        } else if lp {
            let j = g.tac.len() as int;
            assert(g2.tac[j].tac_type is Label);
            assert(keeps(g2.tac[j], g3.tac[j]));
            assert(g4.tac[j] == g3.tac[j]);
            assert(g4.tac[j].tac_type is Label);
            assert(g4.tac[j].arguments == seq![g4.tac[i].arguments[0] + seq!['_', 'l', 'o', 'o', 'p']]);
        }
    }
}

proof fn lemma_block_tail(g: GenM, g4: GenM, g5: GenM, et: TacM, label: Seq<char>, lp: bool)
    requires
        head_ok(g, g4, label, lp),
        ends_grow(g4, g5),
        is_end(et),
        et.arguments == seq![label],
        label == label_name(g.label),
        (et.tac_type is LoopEnd) == lp,
        lp ==> g4.tac.last().tac_type is Loop,
        !lp ==> g4.tac.last().tac_type is Conditional,
    ensures
        ends_grow(g, emit(g5, et)),
{
    let g6 = emit(g5, et);
    let k0 = g.label;
    lemma_label_no(k0);
    assert(et.arguments[0].skip(1) == label_name(k0).skip(1));
    assert(end_no(et) == k0);
    // The core facts.
    assert(ends_core(g, g4)) by {
        assert forall|i: int| g.tac.len() <= i < g4.tac.len() implies end_in(#[trigger] g4.tac[i], g.label, g4.label) by {
            assert(!is_end(g4.tac[i]));
        }
    }
    lemma_core_trans(g, g4, g5);
    assert(ends_core(g, g6)) by {
        assert forall|i: int| 0 <= i < g.tac.len() implies keeps(g.tac[i], #[trigger] g6.tac[i]) by {
            assert(g6.tac[i] == g5.tac[i]);
        }
        assert forall|i: int| g.tac.len() <= i < g6.tac.len() implies end_in(#[trigger] g6.tac[i], g.label, g6.label) by {
            if i < g5.tac.len() {
                assert(g6.tac[i] == g5.tac[i]);
            }
        }
        assert forall|i: int, j: int|
            g.tac.len() <= i < j < g6.tac.len() && is_end(#[trigger] g6.tac[i]) && is_end(#[trigger] g6.tac[j])
                implies end_no(g6.tac[i]) != end_no(g6.tac[j]) by {
            assert(g6.tac[i] == g5.tac[i]);
            if j < g5.tac.len() {
                assert(g6.tac[j] == g5.tac[j]);
            } else {
                assert(g6.tac[j] == et);
                if i < g4.tac.len() {
                    assert(!is_end(g4.tac[i]));
                    assert(keeps(g4.tac[i], g5.tac[i]));
                } else {
                    assert(end_in(g5.tac[i], g4.label, g5.label));
                }
            }
        }
        let j0 = g4.tac.len() - 1;
        assert(keeps(g4.tac[j0], g5.tac[j0]));
        assert(g6.tac[j0] == g5.tac[j0]);
        assert(opens(g6.tac[j0], et));
        assert forall|i: int| g.tac.len() <= i < g6.tac.len() && is_end(#[trigger] g6.tac[i])
            implies exists|j: int| g.tac.len() <= j < i && opens(#[trigger] g6.tac[j], g6.tac[i]) by {
            if i < g5.tac.len() {
                assert(g6.tac[i] == g5.tac[i]);
                let j = choose|j: int| g.tac.len() <= j < i && opens(#[trigger] g5.tac[j], g5.tac[i]);
                assert(g6.tac[j] == g5.tac[j]);
                assert(opens(g6.tac[j], g6.tac[i]));
            } else {
                assert(g6.tac[i] == et);
                assert(opens(g6.tac[j0], g6.tac[i]));
            }
        }
    }
    // Proper nesting: head, body, closing.
    let h4 = g4.tac.subrange(g.tac.len() as int, g4.tac.len() as int);
    let h6 = g6.tac.subrange(g.tac.len() as int, g4.tac.len() as int);
    let body = g6.tac.subrange(g4.tac.len() as int, g5.tac.len() as int);
    assert forall|i: int| 0 <= i < h4.len() implies keeps(h4[i], #[trigger] h6[i]) by {
        assert(keeps(g4.tac[i + g.tac.len()], g5.tac[i + g.tac.len()]));
        assert(g6.tac[i + g.tac.len()] == g5.tac[i + g.tac.len()]);
    }
    lemma_nest_keeps(h4, h6, seq![]);
    assert(body =~= g5.tac.subrange(g4.tac.len() as int, g5.tac.len() as int));
    lemma_nest_lift(body, seq![], seq![(label, lp)]);
    assert(seq![(label, lp)] + Seq::<(Seq<char>, bool)>::empty() =~= seq![(label, lp)]);
    lemma_nest_cat(h6, body, seq![]);
    lemma_nest_cat(h6 + body, seq![et], seq![]);
    assert(g6.tac.subrange(g.tac.len() as int, g6.tac.len() as int) =~= (h6 + body) + seq![et]);
    assert(seq![(label, lp)].last() == (et.arguments[0], et.tac_type is LoopEnd));
    assert(seq![(label, lp)].drop_last() =~= Seq::<(Seq<char>, bool)>::empty());
    assert(nest(seq![et].drop_first(), Seq::<(Seq<char>, bool)>::empty()) == Some(Seq::<(Seq<char>, bool)>::empty()));
    // Loops after their labels.
    assert forall|i: int| g.tac.len() <= i < g6.tac.len() implies #[trigger] loop_labelled(g6.tac, g.tac.len() as int, i) by {
        if i < g4.tac.len() {
            assert(loop_labelled(g4.tac, g.tac.len() as int, i));
            assert(keeps(g4.tac[i], g5.tac[i]));
            assert(g6.tac[i] == g5.tac[i]);
            if g6.tac[i].tac_type is Loop {
                let j = choose|j: int| g.tac.len() <= j < i && #[trigger] g4.tac[j].tac_type is Label
                    && g4.tac[j].arguments == seq![g4.tac[i].arguments[0] + seq!['_', 'l', 'o', 'o', 'p']];
                assert(keeps(g4.tac[j], g5.tac[j]));
                assert(g6.tac[j] == g5.tac[j]);
                assert(g6.tac[j].tac_type is Label);
            }
        } else if i < g5.tac.len() {
            assert(loop_labelled(g5.tac, g4.tac.len() as int, i));
            assert(g6.tac[i] == g5.tac[i]);
            if g6.tac[i].tac_type is Loop {
                let j = choose|j: int| g4.tac.len() <= j < i && #[trigger] g5.tac[j].tac_type is Label
                    && g5.tac[j].arguments == seq![g5.tac[i].arguments[0] + seq!['_', 'l', 'o', 'o', 'p']];
                assert(g6.tac[j] == g5.tac[j]);
                assert(g6.tac[j].tac_type is Label);
            }
        } else {
            assert(g6.tac[i] == et);
        }
    }
}

proof fn lemma_gen_block_grows(g: GenM, start: Type, end: Type, cond: Seq<TableM>, table: Seq<TableM>)
    requires
        (start is Conditional && end is ConditionalEnd) || (start is Loop && end is LoopEnd),
    ensures
        gen_block(g, start, end, cond, table) matches Some(g1) ==> ends_grow(g, g1),
    decreases table, 1nat,
{
    if let Some((g1, label)) = fresh_label(g) {
        assert(label == label_name(g.label));
        let lt = mk_tac(Type::Label, seq![label + seq!['_', 'l', 'o', 'o', 'p']], None, None, None, false);
        let g2 = if start == Type::Loop {
            emit(g1, lt)
        } else {
            g1
        };
        let t = mk_tac(start, seq![label], None, None, None, false);
        let with_cond = if cond.len() > 0 && cond[0] is Variable {
            match gen_var(g2, cond[0]->Variable_0) {
                None => None,
                Some(g3) => Some((g3, attach(g3, t))),
            }
        } else if cond.len() > 0 && cond[0] is Reasingment {
            match gen_reas(g2, cond[0]->Reasingment_0) {
                None => None,
                Some(g3) => Some((g3, attach(g3, t))),
            }
        } else {
            Some((g2, t))
        };
        if cond.len() > 0 && cond[0] is Variable {
            lemma_gen_var_plain(g2, cond[0]->Variable_0);
        }
        if cond.len() > 0 && cond[0] is Reasingment {
            lemma_gen_reas_plain(g2, cond[0]->Reasingment_0);
        }
        if let Some((g3, t2)) = with_cond {
            if g3 == g2 {
                lemma_plain_refl(g2);
            }
            assert(plain(g2, g3));
            assert(t2.tac_type == start);
            assert(t2.arguments.len() > 0 && t2.arguments[0] == label) by {
                if t2 != t {
                    assert(t2.arguments == t.arguments.push(t2.arguments.last()));
                }
            }
            lemma_block_head(g, g1, g2, g3, t2, label, start);
            let g4 = emit(g3, t2);
            lemma_generate_grows(g4, table);
            if let Some(g5) = generate(g4, table) {
                let et = mk_tac(end, seq![label], None, None, None, false);
                lemma_block_tail(g, g4, g5, et, label, start is Loop);
            }
        }
    }
}

/// Generating code for entries, from any state of the generator: the
/// instructions already there keep their kind, closing labels, loop labels
/// and opening labels; the label counter does not go down; every closing
/// instruction added carries its own label `LN`, drawn meanwhile from the
/// counter, and closes a block of its kind opened earlier under that label;
/// the blocks added open and close in properly nested pairs; and each loop
/// added comes after its `L_loop` label.
pub proof fn lemma_generate_blocks(g: GenM, entries: Seq<TableM>)
    ensures
        generate(g, entries) matches Some(g1) ==> ends_grow(g, g1),
{
    lemma_generate_grows(g, entries);
}

/// Every conditional and loop of a program's three-address code is closed by
/// an instruction that carries a single label `LN`; no two closing
/// instructions carry the same label; each closes a block of its kind opened
/// earlier under that label; blocks open and close in properly nested pairs,
/// each opening closed by exactly one later closing; and each loop comes
/// after its `L_loop` label.
pub proof fn lemma_block_labels_distinct(entries: Seq<TableM>)
    ensures
        tac_of(entries) matches Some(tacs) ==> {
            &&& forall|i: int| 0 <= i < tacs.len() && is_end(#[trigger] tacs[i])
                ==> tacs[i].arguments == seq![label_name(end_no(tacs[i]))]
            &&& forall|i: int, j: int|
                0 <= i < j < tacs.len() && is_end(#[trigger] tacs[i]) && is_end(#[trigger] tacs[j])
                    ==> tacs[i].arguments != tacs[j].arguments
            &&& forall|i: int| 0 <= i < tacs.len() && is_end(#[trigger] tacs[i])
                ==> exists|j: int| 0 <= j < i && opens(#[trigger] tacs[j], tacs[i])
            &&& balanced(tacs)
            &&& forall|i: int| 0 <= i < tacs.len() ==> #[trigger] loop_labelled(tacs, 0, i)
            &&& forall|i: int| 0 <= i < tacs.len() && is_start(#[trigger] tacs[i])
                ==> exists|j: int| i < j < tacs.len() && is_end(#[trigger] tacs[j]) && opens(tacs[i], tacs[j])
            &&& forall|i: int, j1: int, j2: int|
                0 <= j1 < j2 < tacs.len() && is_end(#[trigger] tacs[j1]) && is_end(#[trigger] tacs[j2]) && 0 <= i < tacs.len()
                    ==> !(opens(#[trigger] tacs[i], tacs[j1]) && opens(tacs[i], tacs[j2]))
        },
{
    let g0 = GenM { tac: seq![], temp: 0, label: 0, mem: 0, ret: None };
    lemma_generate_grows(g0, entries);
    if let Some(g) = generate(g0, entries) {
        assert(g.tac.subrange(0, g.tac.len() as int) =~= g.tac);
        assert forall|i: int| 0 <= i < g.tac.len() && is_start(#[trigger] g.tac[i])
            implies exists|j: int| i < j < g.tac.len() && is_end(#[trigger] g.tac[j]) && opens(g.tac[i], g.tac[j]) by {
            lemma_balanced_closes(g.tac, i);
        }
    }
    if let Some(g) = generate(g0, entries) {
        assert forall|i: int, j: int|
            0 <= i < j < g.tac.len() && is_end(#[trigger] g.tac[i]) && is_end(#[trigger] g.tac[j])
                implies g.tac[i].arguments != g.tac[j].arguments by {
            assert(end_in(g.tac[i], 0, g.label));
            assert(end_in(g.tac[j], 0, g.label));
            assert(end_no(g.tac[i]) != end_no(g.tac[j]));
            lemma_fresh_names_distinct(end_no(g.tac[i]), end_no(g.tac[j]));
            assert(g.tac[i].arguments[0] != g.tac[j].arguments[0]);
        }
        assert forall|i: int| 0 <= i < g.tac.len() && is_end(#[trigger] g.tac[i])
            implies g.tac[i].arguments == seq![label_name(end_no(g.tac[i]))] by {
            assert(end_in(g.tac[i], 0, g.label));
        }
    }
}

} // verus!
