//! The semantic analyzer's errors: the analysis only adds to them (and
//! leaves the nesting depth where it found it), and each error carries the
//! line and column of a word of the parsed source.
use vstd::prelude::*;
use crate::parser::{WordM, BlockM, parse_model, block_clean, blocks_clean, words_clean, word_clean};
use crate::semantic_analyzer::{
    SemM, ErrM, ResolveType, Norm, push_err, word_err, add_entry, access_new, access_in_value,
    access_in_assignment, access_in_call, access_store, access_field, touch, mangle, resolve_name,
    resolve, entry_type, target_entry, check_parameters, check_return_type, add_pointer_info,
    struct_init, handle_argument_tail, handle_argument_rest, handle_argument, handle_new_entry,
    act_last, set_act_last, mismatch_of, msg_mismatch, msg_no_last, msg_too_many, msg_undefined,
    pending_in, add_caller_info, tokenize_value, call_context, expected_args, tokenize_word, split_ptr,
    remove_char, tokenize_words, split_words, utf8_len, expand_word, split_dc, normalize,
    tokenize_line, tokenize_lines, analyze_one, analyze_blocks, analysis, sem_start,
};
use crate::token::{TokenType, Scope, str_canon, token_of, is_operator_token};
use crate::variable_types::{TableM, table_add};

verus! {

/// A word placed in a source of `n` lines: a line among them and a column from 1.
pub open spec fn pos_ok(n: Option<nat>, w: WordM) -> bool {
    match n {
        None => true,
        Some(k) => {
            &&& w.line matches Some(l) && 1 <= l <= k
            &&& w.char_num matches Some(c) && c >= 1
        },
    }
}

pub open spec fn words_pos_ok(n: Option<nat>, ws: Seq<WordM>) -> bool {
    forall|i: int| 0 <= i < ws.len() ==> pos_ok(n, #[trigger] ws[i])
}

/// The same errors and nesting depth.
pub open spec fn same_em(s: SemM, s1: SemM) -> bool {
    s1.errors == s.errors && s1.max_nesting == s.max_nesting
}

/// An error placed in a source of `n` lines.
pub open spec fn err_ok(n: Option<nat>, e: ErrM) -> bool {
    match n {
        None => true,
        Some(k) => 1 <= e.line <= k && e.ch >= 1,
    }
}

/// From `s` to `s1` the errors only grow: the old ones stay, in order, at
/// the front, and each new one is placed in a source of `n` lines (any
/// error, where `n` is none); and the nesting depth is the same.
pub open spec fn errors_grow(n: Option<nat>, s: SemM, s1: SemM) -> bool {
    &&& s1.max_nesting == s.max_nesting
    &&& s.errors.len() <= s1.errors.len()
    &&& forall|i: int| 0 <= i < s.errors.len() ==> #[trigger] s1.errors[i] == s.errors[i]
    &&& forall|i: int| s.errors.len() <= i < s1.errors.len() ==> err_ok(n, #[trigger] s1.errors[i])
}

proof fn lemma_grow_trans(n: Option<nat>, a: SemM, b: SemM, c: SemM)
    requires
        errors_grow(n, a, b),
        errors_grow(n, b, c),
    ensures
        errors_grow(n, a, c),
{
    assert forall|i: int| a.errors.len() <= i < c.errors.len() implies err_ok(n, #[trigger] c.errors[i]) by {
        if i < b.errors.len() {
            assert(c.errors[i] == b.errors[i]);
        }
    }
}

proof fn lemma_push_err(n: Option<nat>, s: SemM, w: WordM, msg: Seq<char>)
    requires
        pos_ok(n, w),
    ensures
        errors_grow(n, s, push_err(s, word_err(w, msg))),
{
}

proof fn lemma_add_entry(s: SemM, token: TokenType)
    ensures
        same_em(s, add_entry(s, token)),
{
    reveal(add_entry);
}

proof fn lemma_access_chain(s: SemM, mangled: Seq<char>, target: usize, scope: Scope, tok: TokenType)
    ensures
        same_em(s, access_new(s, mangled, target, scope, tok)),
        same_em(s, access_in_value(s, mangled, target, scope, tok)),
        same_em(s, access_in_assignment(s, mangled, target, scope, tok)),
        same_em(s, access_in_call(s, mangled, target, scope, tok)),
        same_em(s, access_store(s, mangled, target, scope, tok)),
{
    reveal(access_new);
    reveal(access_in_value);
    reveal(access_in_assignment);
    reveal(access_in_call);
    reveal(access_store);
    let t = touch(s);
    let tt = touch(t);
    assert(same_em(s, access_new(t, mangled, target, scope, tok)));
    assert(same_em(s, access_new(tt, mangled, target, scope, tok)));
    assert(same_em(s, access_in_value(t, mangled, target, scope, tok)));
    assert(same_em(s, access_in_value(tt, mangled, target, scope, tok)));
    assert(same_em(s, access_new(touch(tt), mangled, target, scope, tok)));
    assert(same_em(s, access_in_value(touch(tt), mangled, target, scope, tok)));
    assert(same_em(s, access_in_assignment(t, mangled, target, scope, tok)));
    assert(same_em(s, access_in_assignment(tt, mangled, target, scope, tok)));
    assert(same_em(s, access_in_call(t, mangled, target, scope, tok)));
}

proof fn lemma_access_field(s: SemM, w: WordM)
    ensures
        same_em(s, access_field(s, w)),
{
    reveal(access_field);
    let inst = match s.struct_instance_name {
        Some(n) => n,
        None => seq![],
    };
    let s0 = SemM { struct_instance_name: None, ..s };
    let mangled = mangle(inst, w.word);
    let (target, scope, tok) = match resolve_name(s0, inst) {
        Some((idx, sc, _)) => (idx, sc, entry_type(target_entry(s0.table, idx as nat, sc))),
        None => (0usize, Scope::Root, TokenType::Unknow),
    };
    lemma_access_chain(s0, mangled, target, scope, tok);
}

proof fn lemma_check_parameters(n: Option<nat>, s: SemM, w: WordM, token: TokenType, index: Option<(usize, Scope, ResolveType)>, k: nat, target: usize)
    requires
        pos_ok(n, w),
    ensures
        check_parameters(s, w, token, index, k, target) matches Some(s1) ==> errors_grow(n, s, s1),
{
    reveal(check_parameters);
}

proof fn lemma_check_return_type(n: Option<nat>, s: SemM, idx: usize, expected: TokenType, w: WordM)
    requires
        pos_ok(n, w),
    ensures
        errors_grow(n, s, check_return_type(s, idx, expected, w)),
{
    reveal(check_return_type);
}

proof fn lemma_add_pointer_info(s: SemM)
    ensures
        same_em(s, add_pointer_info(s)),
{
    reveal(add_pointer_info);
}

proof fn lemma_struct_init(s: SemM)
    ensures
        struct_init(s) matches Some(s1) ==> same_em(s, s1),
{
    reveal(struct_init);
}

proof fn lemma_handle_argument_tail(n: Option<nat>, s: SemM, w: WordM, index: Option<(usize, Scope, ResolveType)>, in_nested: bool)
    requires
        pos_ok(n, w),
    ensures
        errors_grow(n, s, handle_argument_tail(s, w, index, in_nested)),
{
    reveal(handle_argument_tail);
    let last = act_last(s);
    let s1 = touch(s);
    match last {
        None => {},
        Some(e) => {
            let s2 = match mismatch_of(e, w.word, s.ptr_type, in_nested) {
                Some((exp, found, p)) => push_err(s1, word_err(w, msg_mismatch(p, exp, found))),
                None => s1,
            };
            assert(errors_grow(n, s, s2));
            match act_last(s2) {
                None => {
                    lemma_push_err(n, touch(s2), w, msg_no_last());
                    lemma_grow_trans(n, s, touch(s2), push_err(touch(s2), word_err(w, msg_no_last())));
                },
                Some(ne) => if in_nested && pending_in(ne) is Some {
                } else {
                    let (ne3, ret) = add_caller_info(table_add(ne, w.word), index, w.word);
                    let s3 = set_act_last(s2, ne3);
                    let s4 = match ret {
                        Some((idx, et)) => check_return_type(s3, idx, et, w),
                        None => s3,
                    };
                    if let Some((idx, et)) = ret {
                        lemma_check_return_type(n, s3, idx, et, w);
                    }
                    lemma_grow_trans(n, s, s3, s4);
                    lemma_add_pointer_info(s4);
                    lemma_grow_trans(n, s, s4, add_pointer_info(s4));
                },
            }
        },
    }
}

proof fn lemma_handle_argument_rest(
    n: Option<nat>,
    s: SemM,
    w: WordM,
    token: TokenType,
    index: Option<(usize, Scope, ResolveType)>,
    in_reas: bool,
    in_fc: bool,
    in_nested: bool,
    expected: nat,
    fc_len: nat,
    fc_target: usize,
)
    requires
        pos_ok(n, w),
    ensures
        handle_argument_rest(s, w, token, index, in_reas, in_fc, in_nested, expected, fc_len, fc_target) matches Some(s1)
            ==> errors_grow(n, s, s1),
{
    reveal(handle_argument_rest);
    let sv = if token is PlusPlus || token is MinusMinus {
        false
    } else {
        s.set_value && is_operator_token(token)
    };
    let s1 = SemM { set_value: sv, ..s };
    let checked = if in_fc || in_nested {
        if fc_len >= expected {
            if fc_len + 1 > usize::MAX {
                None
            } else {
                Some(push_err(s1, word_err(w, msg_too_many(expected, fc_len + 1))))
            }
        } else {
            check_parameters(s1, w, token, index, fc_len, fc_target)
        }
    } else {
        Some(s1)
    };
    lemma_check_parameters(n, s1, w, token, index, fc_len, fc_target);
    if let Some(s2) = checked {
        assert(errors_grow(n, s, s2));
        let s3 = if (in_reas || in_fc || in_nested) && token is Unknow && index is None {
            push_err(s2, word_err(w, msg_undefined(w.word)))
        } else {
            s2
        };
        lemma_grow_trans(n, s, s2, s3);
        lemma_handle_argument_tail(n, s3, w, index, in_nested);
        lemma_grow_trans(n, s, s3, handle_argument_tail(s3, w, index, in_nested));
    }
}

proof fn lemma_handle_argument(
    n: Option<nat>,
    s: SemM,
    w: WordM,
    token: TokenType,
    index: Option<(usize, Scope, ResolveType)>,
    in_reas: bool,
    in_fc: bool,
    in_nested: bool,
    expected: nat,
    fc_len: nat,
    fc_target: usize,
)
    requires
        pos_ok(n, w),
    ensures
        handle_argument(s, w, token, index, in_reas, in_fc, in_nested, expected, fc_len, fc_target) matches Some(s1)
            ==> errors_grow(n, s, s1),
{
    reveal(handle_argument);
    let s1 = SemM { set_return_value: false, acces_var: false, ..s };
    lemma_struct_init(s1);
    lemma_handle_argument_rest(n, touch(s1), w, token, index, in_reas, in_fc, in_nested, expected, fc_len, fc_target);
    lemma_handle_argument_rest(n, s1, w, token, index, in_reas, in_fc, in_nested, expected, fc_len, fc_target);
    if let Some(r) = handle_argument_rest(touch(s1), w, token, index, in_reas, in_fc, in_nested, expected, fc_len, fc_target) {
        lemma_grow_trans(n, s, touch(s1), r);
    }
    if let Some(r) = handle_argument_rest(s1, w, token, index, in_reas, in_fc, in_nested, expected, fc_len, fc_target) {
        lemma_grow_trans(n, s, s1, r);
    }
}

proof fn lemma_handle_new_entry(n: Option<nat>, s: SemM, w: WordM, token: TokenType, index: Option<(usize, Scope, ResolveType)>)
    requires
        pos_ok(n, w),
    ensures
        handle_new_entry(s, w, token, index) matches Some(s1) ==> errors_grow(n, s, s1),
{
    reveal(handle_new_entry);
    lemma_add_entry(s, token);
    lemma_add_entry(SemM { set_value: true, ..s }, TokenType::StructDef(str_canon(w.word)));
}

proof fn lemma_tokenize_value(n: Option<nat>, s: SemM, w: WordM, token: TokenType)
    requires
        pos_ok(n, w),
    ensures
        tokenize_value(s, w, token) matches Some(s1) ==> errors_grow(n, s, s1),
{
    reveal(tokenize_value);
    let index = resolve(s, w.word);
    let s1 = touch(s);
    let (is_fc, in_nested, fc_target, fc_scope, fc_len) = call_context(act_last(s1), s1.defining_parameters);
    let s2 = touch(s1);
    let exp = if is_fc || in_nested {
        expected_args(s2, fc_target, fc_scope)
    } else {
        Some(0)
    };
    if let Some(expected) = exp {
        let in_reas = act_last(s2) matches Some(TableM::Reasingment(_));
        let s3 = touch(s2);
        let in_fc = (act_last(s3) matches Some(TableM::FunctionCall(_))) && s3.defining_parameters;
        let s4 = touch(s3);
        let s5 = touch(s4);
        assert(same_em(s, s5));
        lemma_handle_argument(n, s5, w, token, index, in_reas, in_fc, in_nested, expected, fc_len, fc_target);
        lemma_handle_new_entry(n, s5, w, token, index);
        if let Some(r) = handle_argument(s5, w, token, index, in_reas, in_fc, in_nested, expected, fc_len, fc_target) {
            lemma_grow_trans(n, s, s5, r);
        }
        if let Some(r) = handle_new_entry(s5, w, token, index) {
            lemma_grow_trans(n, s, s5, r);
        }
    }
}

proof fn lemma_tokenize_word(n: Option<nat>, s: SemM, w: WordM)
    requires
        pos_ok(n, w),
    ensures
        tokenize_word(s, w) matches Some(s1) ==> errors_grow(n, s, s1),
{
    reveal(tokenize_word);
    let (ptr, word) = split_ptr(w.word);
    let w1 = WordM { word, ..w };
    let token = token_of(word);
    let s1 = SemM { ptr_type: ptr, set_value: s.set_value || is_operator_token(token), ..s };
    lemma_access_field(SemM { acces_var: false, ..s1 }, w1);
    lemma_tokenize_value(n, s1, w1, token);
    if let Some(r) = tokenize_value(s1, w1, token) {
        lemma_grow_trans(n, s, s1, r);
    }
}

proof fn lemma_tokenize_words(n: Option<nat>, s: SemM, ws: Seq<WordM>, k: nat)
    requires
        forall|i: int| 0 <= i < ws.len() ==> pos_ok(n, #[trigger] ws[i]),
    ensures
        tokenize_words(s, ws, k) matches Some(s1) ==> errors_grow(n, s, s1),
    decreases ws.len() - k,
{
    if k < ws.len() {
        lemma_tokenize_word(n, s, ws[k as int]);
        if let Some(s1) = tokenize_word(s, ws[k as int]) {
            lemma_tokenize_words(n, s1, ws, k + 1);
            if let Some(s2) = tokenize_words(s1, ws, k + 1) {
                lemma_grow_trans(n, s, s1, s2);
            }
        }
    }
}

proof fn lemma_split_words(n: Option<nat>, w: WordM, parts: Seq<Seq<char>>, k: nat, count: nat)
    requires
        pos_ok(n, w),
    ensures
        split_words(w, parts, k, count) matches Some(ws) ==> forall|i: int| 0 <= i < ws.len() ==> pos_ok(n, #[trigger] ws[i]),
    decreases parts.len() - k,
{
    reveal(split_words);
    if k < parts.len() {
        lemma_split_words(n, w, parts, k + 1, count + utf8_len(parts[k as int]) + 2);
        lemma_split_words(n, w, parts, k + 1, count + utf8_len(parts[k as int]));
        if let Some(ws) = split_words(w, parts, k, count) {
            assert forall|i: int| 0 <= i < ws.len() implies pos_ok(n, #[trigger] ws[i]) by {
                let cn: nat = w.char_num->0 as nat;
                let count2 = count + utf8_len(parts[k as int]);
                if k + 1 < parts.len() {
                    let rest = split_words(w, parts, k + 1, count2 + 2)->0;
                    if i >= 2 {
                        assert(ws[i] == rest[i - 2]);
                    }
                } else {
                    let rest = split_words(w, parts, k + 1, count2)->0;
                    if i >= 1 {
                        assert(ws[i] == rest[i - 1]);
                    }
                }
            }
        }
    }
}

proof fn lemma_expand_word(n: Option<nat>, w: WordM)
    requires
        pos_ok(n, w),
    ensures
        expand_word(w) matches Some(ws) ==> forall|i: int| 0 <= i < ws.len() ==> pos_ok(n, #[trigger] ws[i]),
{
    reveal(expand_word);
    lemma_split_words(n, w, split_dc(w.word), 0, 0);
}

proof fn lemma_normalize(n: Option<nat>, line: Seq<WordM>, i: nat)
    requires
        forall|j: int| 0 <= j < line.len() ==> pos_ok(n, #[trigger] line[j]),
    ensures
        normalize(line, i) matches Norm::Words(ws) ==> forall|j: int| 0 <= j < ws.len() ==> pos_ok(n, #[trigger] ws[j]),
    decreases line.len() - i,
{
    if i < line.len() {
        let w0 = line[i as int];
        let wd = if w0.word.len() > 1 && w0.word.last() == ',' && w0.word[0] != '"' {
            w0.word.drop_last()
        } else {
            w0.word
        };
        if wd == ","@ || wd == "{"@ || wd == "}"@ {
            lemma_normalize(n, line, i + 1);
        } else {
            let (wd2, next) = if i + 3 < line.len() && line[i + 1int].word == "["@ && line[i + 3int].word == "]"@ {
                (wd + "["@ + line[i + 2int].word + "]"@, i + 4)
            } else if i + 1 < line.len() && line[i + 1int].word.len() > 0 && line[i + 1int].word[0] == '['
                && line[i + 1int].word.last() == ']' {
                (wd + line[i + 1int].word, i + 2)
            } else {
                (wd, i + 1)
            };
            if wd2.len() > 0 {
                lemma_expand_word(n, WordM { word: wd2, ..w0 });
                lemma_normalize(n, line, next);
                if let Norm::Words(all) = normalize(line, i) {
                    let ws = expand_word(WordM { word: wd2, ..w0 })->0;
                    let rest = normalize(line, next)->Words_0;
                    assert(all == ws + rest);
                    assert forall|j: int| 0 <= j < all.len() implies pos_ok(n, #[trigger] all[j]) by {
                        if j >= ws.len() {
                            assert(all[j] == rest[j - ws.len()]);
                        } else {
                            assert(all[j] == ws[j]);
                        }
                    }
                }
            }
        }
    }
}

proof fn lemma_tokenize_line(n: Option<nat>, s: SemM, line: Seq<WordM>)
    requires
        forall|j: int| 0 <= j < line.len() ==> pos_ok(n, #[trigger] line[j]),
    ensures
        tokenize_line(s, line) matches Some(s1) ==> errors_grow(n, s, s1),
{
    lemma_normalize(n, line, 0);
    if let Norm::Words(ws) = normalize(line, 0) {
        lemma_tokenize_words(n, s, ws, 0);
    }
}

proof fn lemma_tokenize_lines(n: Option<nat>, s: SemM, ls: Seq<Seq<WordM>>, k: nat)
    requires
        forall|j: int| 0 <= j < ls.len() ==> words_pos_ok(n, #[trigger] ls[j]),
    ensures
        tokenize_lines(s, ls, k) matches Some(s1) ==> errors_grow(n, s, s1),
    decreases ls.len() - k,
{
    if k < ls.len() {
        lemma_tokenize_line(n, s, ls[k as int]);
        if let Some(s1) = tokenize_line(s, ls[k as int]) {
            lemma_tokenize_lines(n, s1, ls, k + 1);
            if let Some(s2) = tokenize_lines(s1, ls, k + 1) {
                lemma_grow_trans(n, s, s1, s2);
            }
        }
    }
}

proof fn lemma_clean_pos(lines: Seq<Seq<char>>, w: WordM)
    requires
        word_clean(lines, w),
    ensures
        pos_ok(Some(lines.len()), w),
{
}

proof fn lemma_analyze_one(lines: Seq<Seq<char>>, placed: bool, s: SemM, b: BlockM)
    requires
        placed ==> block_clean(lines, b),
    ensures
        analyze_one(s, b) matches Some(s1) ==> errors_grow(if placed { Some(lines.len()) } else { None }, s, s1),
    decreases b, 0nat,
{
    let n = if placed { Some(lines.len()) } else { None };
    match b {
        BlockM::Word(w) => {
            if placed {
                lemma_clean_pos(lines, w);
            }
            lemma_tokenize_word(n, s, w);
        },
        BlockM::Line(ws) => {
            assert forall|j: int| 0 <= j < ws.len() implies pos_ok(n, #[trigger] ws[j]) by {
                if placed {
                    lemma_clean_pos(lines, ws[j]);
                }
            }
            lemma_tokenize_line(n, s, ws);
        },
        BlockM::Multiple(ls) => {
            assert forall|j: int| 0 <= j < ls.len() implies words_pos_ok(n, #[trigger] ls[j]) by {
                if placed {
                    assert(words_clean(lines, ls[j]));
                    assert forall|i: int| 0 <= i < ls[j].len() implies pos_ok(n, #[trigger] ls[j][i]) by {
                        lemma_clean_pos(lines, ls[j][i]);
                    }
                }
            }
            lemma_tokenize_lines(n, s, ls, 0);
        },
        BlockM::Collection(inner) => {
            let last_is_fn = act_last(s) matches Some(TableM::Function(_));
            let s1 = touch(s);
            if s1.max_nesting != usize::MAX {
                let s2 = SemM { max_nesting: (s1.max_nesting + 1) as usize, ..s1 };
                assert(placed ==> blocks_clean(lines, inner));
                lemma_analyze_blocks(lines, placed, SemM { defining_fn: true, ..s2 }, inner, 0);
                lemma_analyze_blocks(lines, placed, s2, inner, 0);
            }
        },
        BlockM::Parameter(inner) => {
            assert(placed ==> blocks_clean(lines, inner));
            lemma_analyze_blocks(lines, placed, SemM { defining_fn: true, defining_parameters: true, ..s }, inner, 0);
        },
    }
}

proof fn lemma_analyze_blocks(lines: Seq<Seq<char>>, placed: bool, s: SemM, bs: Seq<BlockM>, i: nat)
    requires
        placed ==> blocks_clean(lines, bs),
    ensures
        analyze_blocks(s, bs, i) matches Some(s1) ==> errors_grow(if placed { Some(lines.len()) } else { None }, s, s1),
    decreases bs, bs.len() - i,
{
    if i < bs.len() {
        lemma_analyze_one(lines, placed, s, bs[i as int]);
        if let Some(s5) = analyze_one(s, bs[i as int]) {
            lemma_analyze_blocks(lines, placed, s5, bs, i + 1);
            if let Some(s6) = analyze_blocks(s5, bs, i + 1) {
                lemma_grow_trans(if placed { Some(lines.len()) } else { None }, s, s5, s6);
            }
        }
    }
}

/// The analysis only adds errors: those of the state it starts from stay,
/// unchanged and in order, at the front; and every nesting level it enters
/// it leaves again, so the nesting depth ends where it started.
pub proof fn lemma_analysis_keeps_errors(s: SemM, bs: Seq<BlockM>)
    ensures
        analyze_blocks(s, bs, 0) matches Some(s1) ==> {
            &&& s1.max_nesting == s.max_nesting
            &&& s.errors.len() <= s1.errors.len()
            &&& forall|i: int| 0 <= i < s.errors.len() ==> #[trigger] s1.errors[i] == s.errors[i]
        },
{
    lemma_analyze_blocks(seq![], false, s, bs, 0);
}

/// Every error that the analysis of a parsed source reports points into the
/// source: its line is one of the source's lines and its column is at least
/// 1 (for a source whose line count and line lengths fit in a `usize`).
pub proof fn lemma_analysis_errors_placed(lines: Seq<Seq<char>>)
    requires
        lines.len() <= usize::MAX,
        forall|j: int| 0 <= j < lines.len() ==> #[trigger] lines[j].len() <= usize::MAX,
    ensures
        parse_model(lines) matches Some(Ok(bs)) ==> (analysis(bs) matches Some(Err(es)) ==>
            forall|i: int| 0 <= i < es.len() ==> 1 <= (#[trigger] es[i]).line <= lines.len() && es[i].ch >= 1),
{
    crate::parser::lemma_parse_words_clean(lines);
    if let Some(Ok(bs)) = parse_model(lines) {
        lemma_analyze_blocks(lines, true, sem_start(), bs, 0);
    }
}

} // verus!
