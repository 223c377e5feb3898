//! What the instructions built for an expression compute: run in order, each
//! `r := a op b` taken by one meaning of the operators, they leave in the
//! target the value of the expression read by the binding strengths of
//! `precedence`, each operator grouping to the left.
use vstd::prelude::*;
use crate::text::{digits_value, digit_value, unsigned_part};
use crate::three_address_code_gen::{
    GenM, TacM, Type, Operator, emit, mk_tac, fresh_temp, temp_name, eval, parse_expr, parse_loop,
    build_chain, op_of, precedence, continues_at, lemma_fresh_names_distinct, desugar,
};
use crate::variable_types::ValueM;
use crate::token::TokenType;

verus! {

/// The value of an integer literal's text.
pub open spec fn lit_value(x: Seq<char>) -> int {
    if x.len() > 0 && x[0] == '-' {
        -(digits_value(unsigned_part(x)) as int)
    } else {
        digits_value(unsigned_part(x)) as int
    }
}

/// The value of an operand: the variable's value where it has one, else the
/// literal's value.
pub open spec fn value_of(env: Map<Seq<char>, int>, x: Seq<char>) -> int {
    if env.dom().contains(x) {
        env[x]
    } else {
        lit_value(x)
    }
}

/// Running one instruction, the operators meaning what `f` says:
/// `r := a op b`, or `r := a`.
pub open spec fn exec_tac(f: spec_fn(Operator, int, int) -> int, env: Map<Seq<char>, int>, t: TacM) -> Map<Seq<char>, int> {
    match t.result {
        Some(r) => if t.operator is Some && t.arguments.len() == 2 {
            env.insert(r, f(t.operator->0, value_of(env, t.arguments[0]), value_of(env, t.arguments[1])))
        } else if t.operator is None && t.arguments.len() == 1 {
            env.insert(r, value_of(env, t.arguments[0]))
        } else {
            env
        },
        None => env,
    }
}

/// Running instructions in order.
pub open spec fn exec_tacs(f: spec_fn(Operator, int, int) -> int, env: Map<Seq<char>, int>, ts: Seq<TacM>) -> Map<Seq<char>, int>
    decreases ts.len(),
{
    if ts.len() == 0 {
        env
    } else {
        exec_tac(f, exec_tacs(f, env, ts.drop_last()), ts.last())
    }
}

pub open spec fn word_at(ts: Seq<ValueM>, i: int) -> Seq<char> {
    ts[i]->Var_0
}

/// Binding strength of the word at place `i`, read as an operator.
pub open spec fn prec_at(ts: Seq<ValueM>, i: int) -> nat {
    precedence(op_of(word_at(ts, i)))
}

/// A name that is no temporary `_tN`.
pub open spec fn not_temp(x: Seq<char>) -> bool {
    forall|k: nat| x != #[trigger] temp_name(k)
}

/// An expression `o0 op1 o1 ... opk ok`: operands (names or integer
/// literals, no temporary) at even places, binary operators at odd places.
pub open spec fn op_chain(ts: Seq<ValueM>) -> bool {
    &&& ts.len() % 2 == 1
    &&& forall|i: int| 0 <= i < ts.len() ==> (#[trigger] ts[i]) is Var
    &&& forall|i: int| 0 <= i < ts.len() && i % 2 == 0 ==> not_temp(#[trigger] word_at(ts, i))
    &&& forall|i: int| 0 <= i < ts.len() && i % 2 == 1 ==> #[trigger] prec_at(ts, i) > 0
}

/// Among the operators at `lo + 1`, `lo + 3`, ... up to `k`, the last one
/// that binds least.
pub open spec fn loosest(ts: Seq<ValueM>, lo: int, k: int) -> int
    decreases k - lo,
{
    if k <= lo + 1 {
        lo + 1
    } else {
        let b = loosest(ts, lo, k - 2);
        if prec_at(ts, k) <= prec_at(ts, b) {
            k
        } else {
            b
        }
    }
}

pub proof fn lemma_loosest_range(ts: Seq<ValueM>, lo: int, k: int)
    requires
        lo < k,
    ensures
        lo < loosest(ts, lo, k) <= k,
        (lo % 2 == 0 && k % 2 == 1) ==> loosest(ts, lo, k) % 2 == 1,
    decreases k - lo,
{
    if k > lo + 1 {
        if k - 2 > lo {
            lemma_loosest_range(ts, lo, k - 2);
        } else {
            assert(loosest(ts, lo, k - 2) == lo + 1);
        }
    }
}

/// The value of the operands and operators from `lo` to `hi` (both
/// operands): split at the last operator that binds least.
pub open spec fn ev(f: spec_fn(Operator, int, int) -> int, env: Map<Seq<char>, int>, ts: Seq<ValueM>, lo: int, hi: int) -> int
    decreases hi - lo,
{
    if hi <= lo + 1 {
        value_of(env, word_at(ts, lo))
    } else {
        let k = loosest(ts, lo, hi - 1);
        proof {
            lemma_loosest_range(ts, lo, hi - 1);
        }
        f(op_of(word_at(ts, k)), ev(f, env, ts, lo, k - 1), ev(f, env, ts, k + 1, hi))
    }
}

/// With every operator before `k` binding at least as tightly as the one at
/// `k`, and every one after it up to `j` binding more tightly, `k` is where
/// the range splits.
proof fn lemma_loosest_at(ts: Seq<ValueM>, lo: int, k: int, j: int)
    requires
        lo < k <= j,
        lo % 2 == 0,
        k % 2 == 1,
        j % 2 == 1,
        forall|i: int| lo < i < k && i % 2 == 1 ==> #[trigger] prec_at(ts, i) >= prec_at(ts, k),
        forall|i: int| k < i <= j && i % 2 == 1 ==> #[trigger] prec_at(ts, i) > prec_at(ts, k),
    ensures
        loosest(ts, lo, j) == k,
    decreases j - lo,
{
    if j == k {
        if k > lo + 1 {
            lemma_loosest_range(ts, lo, k - 2);
            let b = loosest(ts, lo, k - 2);
            assert(prec_at(ts, b) >= prec_at(ts, k));
        }
    } else {
        lemma_loosest_at(ts, lo, k, j - 2);
        assert(prec_at(ts, j) > prec_at(ts, k));
    }
}

/// `a` and `b` agree on `x`.
pub open spec fn same_at(a: Map<Seq<char>, int>, b: Map<Seq<char>, int>, x: Seq<char>) -> bool {
    a.dom().contains(x) == b.dom().contains(x) && (a.dom().contains(x) ==> a[x] == b[x])
}

/// `x` is a temporary numbered from `lo` up to `hi`.
pub open spec fn young(x: Seq<char>, lo: nat, hi: nat) -> bool {
    exists|k: nat| lo <= k < hi && x == #[trigger] temp_name(k)
}

pub open spec fn tac_state(f: spec_fn(Operator, int, int) -> int, env0: Map<Seq<char>, int>, n0: nat, g: GenM) -> Map<Seq<char>, int> {
    exec_tacs(f, env0, g.tac.skip(n0 as int))
}

proof fn lemma_emit_state(f: spec_fn(Operator, int, int) -> int, env0: Map<Seq<char>, int>, n0: nat, g: GenM, t: TacM)
    requires
        n0 <= g.tac.len(),
    ensures
        tac_state(f, env0, n0, emit(g, t)) == exec_tac(f, tac_state(f, env0, n0, g), t),
        emit(g, t).tac.subrange(0, g.tac.len() as int) == g.tac,
{
    let s = g.tac.skip(n0 as int);
    assert(emit(g, t).tac.skip(n0 as int) =~= s.push(t));
    assert(s.push(t).drop_last() =~= s);
    assert(emit(g, t).tac.subrange(0, g.tac.len() as int) =~= g.tac);
}

proof fn lemma_not_young_old_temp(j: nat, lo: nat, hi: nat)
    requires
        j < lo,
    ensures
        !young(temp_name(j), lo, hi),
{
    if young(temp_name(j), lo, hi) {
        let k = choose|k: nat| lo <= k < hi && temp_name(j) == #[trigger] temp_name(k);
        lemma_fresh_names_distinct(j, k);
    }
}

proof fn lemma_young_widen(x: Seq<char>, lo: nat, mid: nat, hi: nat)
    requires
        lo <= mid <= hi,
        young(x, lo, mid) || young(x, mid, hi),
    ensures
        young(x, lo, hi),
{
    if young(x, lo, mid) {
        let k = choose|k: nat| lo <= k < mid && x == #[trigger] temp_name(k);
    } else {
        let k = choose|k: nat| mid <= k < hi && x == #[trigger] temp_name(k);
    }
}

/// One operand and the operators after it that bind at least `m`, read from
/// `p` (an operand) below the top level.
proof fn lemma_expr(
    f: spec_fn(Operator, int, int) -> int,
    env0: Map<Seq<char>, int>,
    n0: nat,
    g: GenM,
    ts: Seq<ValueM>,
    p: int,
    m: nat,
    tt: Type,
    target: Seq<char>,
    vt: Option<TokenType>,
)
    requires
        op_chain(ts),
        0 <= p < ts.len(),
        p % 2 == 0,
        n0 <= g.tac.len(),
        forall|x: Seq<char>| not_temp(x) ==> #[trigger] same_at(tac_state(f, env0, n0, g), env0, x),
    ensures
        parse_expr(g, ts, p as nat, m, tt, target, false, vt) matches Some((g1, q, name)) ==> {
            &&& p < q <= ts.len()
            &&& q % 2 == 1
            &&& (q < ts.len() ==> prec_at(ts, q as int) < m)
            &&& forall|i: int| p < i < q && i % 2 == 1 ==> #[trigger] prec_at(ts, i) >= m
            &&& g.tac.len() <= g1.tac.len()
            &&& g1.tac.subrange(0, g.tac.len() as int) == g.tac
            &&& g.temp <= g1.temp
            &&& value_of(tac_state(f, env0, n0, g1), name) == ev(f, env0, ts, p, q - 1)
            &&& forall|x: Seq<char>| not_temp(x) ==> #[trigger] same_at(tac_state(f, env0, n0, g1), env0, x)
            &&& forall|x: Seq<char>| !young(x, g.temp, g1.temp)
                ==> #[trigger] same_at(tac_state(f, env0, n0, g1), tac_state(f, env0, n0, g), x)
            &&& (name == word_at(ts, p) || young(name, g.temp, g1.temp))
        },
    decreases ts.len() - p, 1nat,
{
    let o = word_at(ts, p);
    assert(ts[p] is Var);
    assert(not_temp(o));
    assert(eval(g, ts[p], vt) == Some((g, o, false)));
    let e = tac_state(f, env0, n0, g);
    assert(same_at(e, env0, o));
    lemma_loop(f, env0, n0, g.temp, e, g, ts, p, (p + 1) as nat, o, m, tt, target, vt);
}

/// The operators from `pos` on that bind at least `m`, below the top level,
/// `left` holding the value read so far from `p`.
proof fn lemma_loop(
    f: spec_fn(Operator, int, int) -> int,
    env0: Map<Seq<char>, int>,
    n0: nat,
    kb: nat,
    eb: Map<Seq<char>, int>,
    g: GenM,
    ts: Seq<ValueM>,
    p: int,
    pos: nat,
    left: Seq<char>,
    m: nat,
    tt: Type,
    target: Seq<char>,
    vt: Option<TokenType>,
)
    requires
        op_chain(ts),
        0 <= p < pos <= ts.len(),
        p % 2 == 0,
        pos % 2 == 1,
        forall|i: int| p < i < pos && i % 2 == 1 ==> #[trigger] prec_at(ts, i) >= m,
        pos < ts.len() ==> forall|i: int| p < i < pos && i % 2 == 1 ==> #[trigger] prec_at(ts, i) >= prec_at(ts, pos as int),
        n0 <= g.tac.len(),
        kb <= g.temp,
        value_of(tac_state(f, env0, n0, g), left) == ev(f, env0, ts, p, pos - 1),
        left == word_at(ts, p) || young(left, kb, g.temp),
        forall|x: Seq<char>| not_temp(x) ==> #[trigger] same_at(tac_state(f, env0, n0, g), env0, x),
        forall|x: Seq<char>| !young(x, kb, g.temp) ==> #[trigger] same_at(tac_state(f, env0, n0, g), eb, x),
    ensures
        parse_loop(g, ts, pos, left, m, tt, target, false, vt) matches Some((g1, q, name)) ==> {
            &&& pos <= q <= ts.len()
            &&& q % 2 == 1
            &&& (q < ts.len() ==> prec_at(ts, q as int) < m)
            &&& forall|i: int| p < i < q && i % 2 == 1 ==> #[trigger] prec_at(ts, i) >= m
            &&& g.tac.len() <= g1.tac.len()
            &&& g1.tac.subrange(0, g.tac.len() as int) == g.tac
            &&& g.temp <= g1.temp
            &&& value_of(tac_state(f, env0, n0, g1), name) == ev(f, env0, ts, p, q - 1)
            &&& forall|x: Seq<char>| not_temp(x) ==> #[trigger] same_at(tac_state(f, env0, n0, g1), env0, x)
            &&& forall|x: Seq<char>| !young(x, kb, g1.temp) ==> #[trigger] same_at(tac_state(f, env0, n0, g1), eb, x)
            &&& (name == word_at(ts, p) || young(name, kb, g1.temp))
        },
    decreases ts.len() - pos, 0nat,
{
    assert(g.tac.subrange(0, g.tac.len() as int) =~= g.tac);
    if pos < ts.len() {
        assert(ts[pos as int] is Var);
        let op = op_of(ts[pos as int]->Var_0);
        let prec = precedence(op);
        assert(prec == prec_at(ts, pos as int));
        if prec >= m {
            let e = tac_state(f, env0, n0, g);
            lemma_expr(f, env0, n0, g, ts, pos as int + 1, prec + 1, tt, target, vt);
            if let Some((g2, pos2, right)) = parse_expr(g, ts, pos + 1, prec + 1, tt, target, false, vt) {
                let e2 = tac_state(f, env0, n0, g2);
                if let Some((g3, tmp)) = fresh_temp(g2) {
                    let t = mk_tac(tt, seq![left, right], Some(op), Some(tmp), vt, false);
                    let g4 = emit(g3, t);
                    lemma_emit_state(f, env0, n0, g3, t);
                    assert(tac_state(f, env0, n0, g3) == e2);
                    let e4 = tac_state(f, env0, n0, g4);
                    assert(!young(left, g.temp, g2.temp)) by {
                        if left == word_at(ts, p) {
                            assert(not_temp(word_at(ts, p)));
                            if young(left, g.temp, g2.temp) {
                                let k = choose|k: nat| g.temp <= k < g2.temp && left == #[trigger] temp_name(k);
                            }
                        } else {
                            let j = choose|j: nat| kb <= j < g.temp && left == #[trigger] temp_name(j);
                            lemma_not_young_old_temp(j, g.temp, g2.temp);
                        }
                    }
                    assert(same_at(e2, e, left));
                    assert(e4 == e2.insert(tmp, f(op, value_of(e2, left), value_of(e2, right))));
                    lemma_loosest_at(ts, p, pos as int, pos2 - 2);
                    assert(ev(f, env0, ts, p, pos2 - 1)
                        == f(op, ev(f, env0, ts, p, pos - 1), ev(f, env0, ts, pos as int + 1, pos2 - 1)));
                    assert(value_of(e4, tmp) == ev(f, env0, ts, p, pos2 - 1));
                    assert(tmp == temp_name(g2.temp));
                    assert(young(tmp, kb, g4.temp));
                    assert forall|x: Seq<char>| not_temp(x) implies #[trigger] same_at(e4, env0, x) by {
                        assert(x != temp_name(g2.temp));
                        assert(same_at(e2, env0, x));
                    }
                    assert forall|x: Seq<char>| !young(x, kb, g4.temp) implies #[trigger] same_at(e4, eb, x) by {
                        if young(x, kb, g.temp) {
                            lemma_young_widen(x, kb, g.temp, g4.temp);
                        }
                        if young(x, g.temp, g2.temp) {
                            lemma_young_widen(x, g.temp, g2.temp, g4.temp);
                            lemma_young_widen(x, kb, g.temp, g4.temp);
                        }
                        assert(x != tmp);
                        assert(same_at(e2, e, x));
                        assert(same_at(e, eb, x));
                    }
                    assert forall|i: int| p < i < pos2 && i % 2 == 1 implies #[trigger] prec_at(ts, i) >= m by {
                        if i > pos {
                            assert(prec_at(ts, i) >= prec + 1);
                        }
                    }
                    assert(pos2 < ts.len() ==> forall|i: int| p < i < pos2 && i % 2 == 1 ==> #[trigger] prec_at(ts, i) >= prec_at(ts, pos2 as int)) by {
                        if pos2 < ts.len() {
                            assert forall|i: int| p < i < pos2 && i % 2 == 1 implies #[trigger] prec_at(ts, i) >= prec_at(ts, pos2 as int) by {
                                if i > pos {
                                    assert(prec_at(ts, i) >= prec + 1);
                                } else if i < pos {
                                    assert(prec_at(ts, i) >= prec);
                                }
                            }
                        }
                    }
                    lemma_loop(f, env0, n0, kb, eb, g4, ts, p, pos2, tmp, m, tt, target, vt);
                    if let Some((g5, q, name)) = parse_loop(g4, ts, pos2, tmp, m, tt, target, false, vt) {
                        assert(g5.tac.subrange(0, g.tac.len() as int) =~= g4.tac.subrange(0, g.tac.len() as int));
                        assert(g4.tac.subrange(0, g.tac.len() as int) =~= g2.tac.subrange(0, g.tac.len() as int));
                    }
                }
            }
        }
    }
}

/// The top level of an expression, read at strength 0: each operator takes
/// what binds more tightly after it; the last operation goes to the target.
proof fn lemma_top(
    f: spec_fn(Operator, int, int) -> int,
    env0: Map<Seq<char>, int>,
    n0: nat,
    g: GenM,
    ts: Seq<ValueM>,
    pos: nat,
    left: Seq<char>,
    tt: Type,
    target: Seq<char>,
    vt: Option<TokenType>,
)
    requires
        op_chain(ts),
        0 < pos <= ts.len(),
        pos % 2 == 1,
        n0 <= g.tac.len(),
        not_temp(target),
        value_of(tac_state(f, env0, n0, g), left) == ev(f, env0, ts, 0, pos - 1),
        pos < ts.len() ==> forall|i: int| 0 < i < pos && i % 2 == 1 ==> #[trigger] prec_at(ts, i) >= prec_at(ts, pos as int),
        pos < ts.len() ==> (left == word_at(ts, 0) || young(left, 0, g.temp)),
        pos < ts.len() ==> forall|x: Seq<char>| not_temp(x) ==> #[trigger] same_at(tac_state(f, env0, n0, g), env0, x),
    ensures
        parse_loop(g, ts, pos, left, 0, tt, target, true, vt) matches Some((g1, q, name)) ==> {
            &&& g.tac.len() <= g1.tac.len()
            &&& g1.tac.subrange(0, g.tac.len() as int) == g.tac
            &&& (pos < ts.len() ==> name == target)
            &&& (pos >= ts.len() ==> name == left && g1 == g)
            &&& value_of(tac_state(f, env0, n0, g1), name) == ev(f, env0, ts, 0, ts.len() - 1)
        },
    decreases ts.len() - pos,
{
    assert(g.tac.subrange(0, g.tac.len() as int) =~= g.tac);
    if pos < ts.len() {
        assert(ts[pos as int] is Var);
        let op = op_of(ts[pos as int]->Var_0);
        let prec = precedence(op);
        assert(prec == prec_at(ts, pos as int));
        let e = tac_state(f, env0, n0, g);
        lemma_expr(f, env0, n0, g, ts, pos as int + 1, prec + 1, tt, target, vt);
        if let Some((g2, q, right)) = parse_expr(g, ts, pos + 1, prec + 1, tt, target, false, vt) {
            let e2 = tac_state(f, env0, n0, g2);
            if q < ts.len() {
                assert(ts[q as int] is Var);
            }
            assert(continues_at(ts, q, 0) == (q < ts.len()));
            let named = if !(q < ts.len()) { Some((g2, target)) } else { fresh_temp(g2) };
            if let Some((g3, name)) = named {
                let t = mk_tac(tt, seq![left, right], Some(op), Some(name), vt, false);
                let g4 = emit(g3, t);
                lemma_emit_state(f, env0, n0, g3, t);
                assert(tac_state(f, env0, n0, g3) == e2);
                let e4 = tac_state(f, env0, n0, g4);
                assert(!young(left, g.temp, g2.temp)) by {
                    if left == word_at(ts, 0) {
                        assert(not_temp(word_at(ts, 0)));
                        if young(left, g.temp, g2.temp) {
                            let k = choose|k: nat| g.temp <= k < g2.temp && left == #[trigger] temp_name(k);
                        }
                    } else {
                        let j = choose|j: nat| 0 <= j < g.temp && left == #[trigger] temp_name(j);
                        lemma_not_young_old_temp(j, g.temp, g2.temp);
                    }
                }
                assert(same_at(e2, e, left));
                assert(e4 == e2.insert(name, f(op, value_of(e2, left), value_of(e2, right))));
                lemma_loosest_at(ts, 0, pos as int, q - 2);
                assert(ev(f, env0, ts, 0, q - 1)
                    == f(op, ev(f, env0, ts, 0, pos - 1), ev(f, env0, ts, pos as int + 1, q - 1)));
                assert(value_of(e4, name) == ev(f, env0, ts, 0, q - 1));
                if q < ts.len() {
                    assert(name == temp_name(g2.temp));
                    assert(young(name, 0, g4.temp));
                    assert forall|x: Seq<char>| not_temp(x) implies #[trigger] same_at(e4, env0, x) by {
                        assert(x != temp_name(g2.temp));
                        assert(same_at(e2, env0, x));
                    }
                    assert forall|i: int| 0 < i < q && i % 2 == 1 implies #[trigger] prec_at(ts, i) >= prec_at(ts, q as int) by {
                        if i > pos {
                            assert(prec_at(ts, i) >= prec + 1);
                        } else if i < pos {
                            assert(prec_at(ts, i) >= prec);
                        }
                    }
                }
                lemma_top(f, env0, n0, g4, ts, q, name, tt, target, vt);
                if let Some((g5, _, _)) = parse_loop(g4, ts, q, name, 0, tt, target, true, vt) {
                    assert(g5.tac.subrange(0, g.tac.len() as int) =~= g4.tac.subrange(0, g.tac.len() as int));
                    assert(g4.tac.subrange(0, g.tac.len() as int) =~= g2.tac.subrange(0, g.tac.len() as int));
                }
            }
        }
    }
}

/// The instructions built for an expression `o0 op1 o1 ... opk ok` of
/// operands (no temporary) and binary operators, run in order from any
/// values of the variables and whatever the operators mean (`f`), leave in
/// the target (no temporary) the value of the expression read by the
/// binding strengths of `precedence`, each operator grouping to the left;
/// the instructions already built stay as they were.
pub proof fn lemma_chain_value(
    f: spec_fn(Operator, int, int) -> int,
    env0: Map<Seq<char>, int>,
    g: GenM,
    ts: Seq<ValueM>,
    target: Seq<char>,
    tt: Type,
    vt: Option<TokenType>,
)
    requires
        op_chain(ts),
        not_temp(target),
    ensures
        build_chain(g, ts, target, tt, vt) matches Some(g1) ==> {
            &&& g1.tac.subrange(0, g.tac.len() as int) == g.tac
            &&& value_of(exec_tacs(f, env0, g1.tac.skip(g.tac.len() as int)), target)
                == ev(f, env0, ts, 0, ts.len() - 1)
        },
{
    let n0 = g.tac.len();
    assert(g.tac.skip(n0 as int) =~= Seq::<TacM>::empty());
    assert(tac_state(f, env0, n0, g) == env0);
    let o = word_at(ts, 0);
    assert(ts[0] is Var);
    assert(not_temp(o));
    assert(eval(g, ts[0], vt) == Some((g, o, false)));
    if ts.len() == 1 {
        let t = mk_tac(tt, seq![o], None, Some(target), vt, false);
        lemma_emit_state(f, env0, n0, g, t);
    } else {
        assert(ts[1] is Var);
        lemma_top(f, env0, n0, g, ts, 1, o, tt, target, vt);
    }
}

/// The integer meaning of the arithmetic operators (others give 0).
pub open spec fn arith(op: Operator, a: int, b: int) -> int {
    match op {
        Operator::Plus => a + b,
        Operator::Minus => a - b,
        Operator::Multiplication => a * b,
        _ => 0,
    }
}

proof fn lemma_op_of_arith()
    ensures
        op_of(seq!['+']) == Operator::Plus,
        op_of(seq!['-']) == Operator::Minus,
{
    assert(seq!['-'][0] != seq!['+'][0]);
}

/// The value of `x op y` read as integers, written as three words.
proof fn lemma_ev_three(env: Map<Seq<char>, int>, x: Seq<char>, o: Seq<char>, y: Seq<char>)
    ensures
        ev(|op: Operator, a: int, b: int| arith(op, a, b), env, seq![ValueM::Var(x), ValueM::Var(o), ValueM::Var(y)], 0, 2)
            == arith(op_of(o), value_of(env, x), value_of(env, y)),
{
    let ts = seq![ValueM::Var(x), ValueM::Var(o), ValueM::Var(y)];
    assert(loosest(ts, 0, 1) == 1);
    assert(word_at(ts, 1) == o);
    assert(ev(|op: Operator, a: int, b: int| arith(op, a, b), env, ts, 0, 0) == value_of(env, x));
    assert(ev(|op: Operator, a: int, b: int| arith(op, a, b), env, ts, 2, 2) == value_of(env, y));
}

/// What the written-out forms of the shorthand assignments compute, read as
/// integers: `x++` leaves `x + 1`, `x--` leaves `x - 1`, `x += e` leaves
/// `x + e` and `x -= e` leaves `x - e` (for one operand `e`); the literal
/// `1` names no variable.
pub proof fn lemma_desugar_values(env: Map<Seq<char>, int>, x: Seq<char>, e: Seq<char>)
    requires
        !env.dom().contains(seq!['1']),
    ensures
        ({
            let ts = desugar(seq![ValueM::Var(seq!['+', '+'])], ValueM::Var(x));
            ts.len() == 3 && ev(|op: Operator, a: int, b: int| arith(op, a, b), env, ts, 0, 2) == value_of(env, x) + 1
        }),
        ({
            let ts = desugar(seq![ValueM::Var(seq!['-', '-'])], ValueM::Var(x));
            ts.len() == 3 && ev(|op: Operator, a: int, b: int| arith(op, a, b), env, ts, 0, 2) == value_of(env, x) - 1
        }),
        ({
            let ts = desugar(seq![ValueM::Var(seq!['+', '=']), ValueM::Var(e)], ValueM::Var(x));
            ts.len() == 3 && ev(|op: Operator, a: int, b: int| arith(op, a, b), env, ts, 0, 2)
                == value_of(env, x) + value_of(env, e)
        }),
        ({
            let ts = desugar(seq![ValueM::Var(seq!['-', '=']), ValueM::Var(e)], ValueM::Var(x));
            ts.len() == 3 && ev(|op: Operator, a: int, b: int| arith(op, a, b), env, ts, 0, 2)
                == value_of(env, x) - value_of(env, e)
        }),
{
    lemma_op_of_arith();
    let pp = seq!['+', '+'];
    let mm = seq!['-', '-'];
    let pe = seq!['+', '='];
    let me = seq!['-', '='];
    assert(pp != pe && mm != pe && me != pe && mm != pp && me != pp && me != mm) by {
        assert(pp[1] != pe[1]);
        assert(mm[0] != pe[0]);
        assert(me[0] != pe[0]);
        assert(mm[0] != pp[0]);
        assert(me[0] != pp[0]);
        assert(me[1] != mm[1]);
    }
    let one = seq!['1'];
    let t1 = desugar(seq![ValueM::Var(pp)], ValueM::Var(x));
    assert(t1 =~= seq![ValueM::Var(x), ValueM::Var(seq!['+']), ValueM::Var(one)]);
    lemma_ev_three(env, x, seq!['+'], one);
    let t2 = desugar(seq![ValueM::Var(mm)], ValueM::Var(x));
    assert(t2 =~= seq![ValueM::Var(x), ValueM::Var(seq!['-']), ValueM::Var(one)]);
    lemma_ev_three(env, x, seq!['-'], one);
    let r3 = seq![ValueM::Var(pe), ValueM::Var(e)];
    assert(r3.skip(1) =~= seq![ValueM::Var(e)]);
    let t3 = desugar(r3, ValueM::Var(x));
    assert(t3 =~= seq![ValueM::Var(x), ValueM::Var(seq!['+']), ValueM::Var(e)]);
    lemma_ev_three(env, x, seq!['+'], e);
    let r4 = seq![ValueM::Var(me), ValueM::Var(e)];
    assert(r4.skip(1) =~= seq![ValueM::Var(e)]);
    let t4 = desugar(r4, ValueM::Var(x));
    assert(t4 =~= seq![ValueM::Var(x), ValueM::Var(seq!['-']), ValueM::Var(e)]);
    lemma_ev_three(env, x, seq!['-'], e);
    assert(unsigned_part(one) == one);
    assert(one.drop_last() =~= Seq::<char>::empty());
    assert(digits_value(one.drop_last()) == 0);
    assert(one.last() == '1');
    assert(digit_value('1') == 1);
    assert(digits_value(one) == 1);
    assert(value_of(env, one) == 1);
}

/// A name of at least one character that does not start with `_` is no
/// temporary.
proof fn lemma_not_temp_plain(x: Seq<char>)
    requires
        x.len() > 0,
        x[0] != '_',
    ensures
        not_temp(x),
{
    assert forall|k: nat| x != #[trigger] temp_name(k) by {
        assert(temp_name(k)[0] == '_');
    }
}

/// The instructions built for `x--`, `x++`, `x -= e` and `x += e` (with `x`
/// and `e` names or literals), run in order as integer operations from any
/// values of the variables, leave `x - 1`, `x + 1`, `x - e` and `x + e` in
/// `x`.
pub proof fn lemma_shorthand_instructions(
    env0: Map<Seq<char>, int>,
    g: GenM,
    x: Seq<char>,
    e: Seq<char>,
    tt: Type,
    vt: Option<TokenType>,
)
    requires
        x.len() > 0 && x[0] != '_',
        e.len() > 0 && e[0] != '_',
        !env0.dom().contains(seq!['1']),
    ensures
        build_chain(g, desugar(seq![ValueM::Var(seq!['-', '-'])], ValueM::Var(x)), x, tt, vt) matches Some(g1)
            ==> value_of(exec_tacs(|op: Operator, a: int, b: int| arith(op, a, b), env0, g1.tac.skip(g.tac.len() as int)), x)
                == value_of(env0, x) - 1,
        build_chain(g, desugar(seq![ValueM::Var(seq!['+', '+'])], ValueM::Var(x)), x, tt, vt) matches Some(g1)
            ==> value_of(exec_tacs(|op: Operator, a: int, b: int| arith(op, a, b), env0, g1.tac.skip(g.tac.len() as int)), x)
                == value_of(env0, x) + 1,
        build_chain(g, desugar(seq![ValueM::Var(seq!['-', '=']), ValueM::Var(e)], ValueM::Var(x)), x, tt, vt) matches Some(g1)
            ==> value_of(exec_tacs(|op: Operator, a: int, b: int| arith(op, a, b), env0, g1.tac.skip(g.tac.len() as int)), x)
                == value_of(env0, x) - value_of(env0, e),
        build_chain(g, desugar(seq![ValueM::Var(seq!['+', '=']), ValueM::Var(e)], ValueM::Var(x)), x, tt, vt) matches Some(g1)
            ==> value_of(exec_tacs(|op: Operator, a: int, b: int| arith(op, a, b), env0, g1.tac.skip(g.tac.len() as int)), x)
                == value_of(env0, x) + value_of(env0, e),
{
    let f = |op: Operator, a: int, b: int| arith(op, a, b);
    lemma_desugar_values(env0, x, e);
    lemma_op_of_arith();
    lemma_not_temp_plain(x);
    lemma_not_temp_plain(e);
    lemma_not_temp_plain(seq!['1']);
    let t1 = desugar(seq![ValueM::Var(seq!['-', '-'])], ValueM::Var(x));
    let t2 = desugar(seq![ValueM::Var(seq!['+', '+'])], ValueM::Var(x));
    let t3 = desugar(seq![ValueM::Var(seq!['-', '=']), ValueM::Var(e)], ValueM::Var(x));
    let t4 = desugar(seq![ValueM::Var(seq!['+', '=']), ValueM::Var(e)], ValueM::Var(x));
    assert(op_chain(t1) && op_chain(t2) && op_chain(t3) && op_chain(t4)) by {
        assert(prec_at(t1, 1) == 7 && prec_at(t2, 1) == 7 && prec_at(t3, 1) == 7 && prec_at(t4, 1) == 7);
        assert(word_at(t1, 2) == seq!['1'] && word_at(t2, 2) == seq!['1']);
        assert(word_at(t3, 2) == e && word_at(t4, 2) == e);
    }
    lemma_chain_value(f, env0, g, t1, x, tt, vt);
    lemma_chain_value(f, env0, g, t2, x, tt, vt);
    lemma_chain_value(f, env0, g, t3, x, tt, vt);
    lemma_chain_value(f, env0, g, t4, x, tt, vt);
}

} // verus!
