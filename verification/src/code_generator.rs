//! Lowering of three-address code to x86-64 assembly in NASM syntax: every
//! name gets an 8-byte stack slot below `rbp`, float and double literals go
//! to read-only data, and the built-in functions a program calls are copied in.
use vstd::prelude::*;
use crate::token::{TokenType, token_of, is_value_token, canon};
use crate::text::{
    chars_of, chars_eq, string_from, push_all, push_decimal, push_signed, decimal,
    signed_decimal, slice_range,
};
use crate::three_address_code_gen::{
    Tac, TacM, Type, Operator, op_asm, op_asm_f32, op_asm_f64, tacs_view, strings_view,
};
use crate::enbeded_funcs::{functions, builtin_name, builtin_code, builtin_count};

verus! {

// ---------------------------------------------------------------------------
// Text fragments of the emitted assembly.

pub open spec fn f_sp4() -> Seq<char> {
    seq![' ', ' ', ' ', ' ']
}

fn k_sp4() -> (r: Vec<char>)
    ensures
        r@ == f_sp4(),
{
    let mut v: Vec<char> = Vec::new();
    push_all(&mut v, &[' ', ' ', ' ', ' ']);
    assert(v@ =~= f_sp4());
    v
}

pub open spec fn f_rbp_open() -> Seq<char> {
    seq!['[', 'r', 'b', 'p', ' ', '-', ' ']
}

fn k_rbp_open() -> (r: Vec<char>)
    ensures
        r@ == f_rbp_open(),
{
    let mut v: Vec<char> = Vec::new();
    push_all(&mut v, &['[', 'r', 'b', 'p', ' ', '-', ' ']);
    assert(v@ =~= f_rbp_open());
    v
}

pub open spec fn f_close() -> Seq<char> {
    seq![']']
}

fn k_close() -> (r: Vec<char>)
    ensures
        r@ == f_close(),
{
    let mut v: Vec<char> = Vec::new();
    push_all(&mut v, &[']']);
    assert(v@ =~= f_close());
    v
}

pub open spec fn f_rel_open() -> Seq<char> {
    seq!['[', 'r', 'e', 'l', ' ']
}

fn k_rel_open() -> (r: Vec<char>)
    ensures
        r@ == f_rel_open(),
{
    let mut v: Vec<char> = Vec::new();
    push_all(&mut v, &['[', 'r', 'e', 'l', ' ']);
    assert(v@ =~= f_rel_open());
    v
}

pub open spec fn f_mov_rax() -> Seq<char> {
    seq![' ', ' ', ' ', ' ', 'm', 'o', 'v', ' ', 'r', 'a', 'x', ',', ' ']
}

fn k_mov_rax() -> (r: Vec<char>)
    ensures
        r@ == f_mov_rax(),
{
    let mut v: Vec<char> = Vec::new();
    push_all(&mut v, &[' ', ' ', ' ', ' ', 'm', 'o', 'v', ' ', 'r', 'a', 'x', ',', ' ']);
    assert(v@ =~= f_mov_rax());
    v
}

pub open spec fn f_rax_comma() -> Seq<char> {
    seq![' ', 'r', 'a', 'x', ',', ' ']
}

fn k_rax_comma() -> (r: Vec<char>)
    ensures
        r@ == f_rax_comma(),
{
    let mut v: Vec<char> = Vec::new();
    push_all(&mut v, &[' ', 'r', 'a', 'x', ',', ' ']);
    assert(v@ =~= f_rax_comma());
    v
}

pub open spec fn f_mov_mem_open() -> Seq<char> {
    seq![' ', ' ', ' ', ' ', 'm', 'o', 'v', ' ', '[', 'r', 'b', 'p', ' ', '-', ' ']
}

fn k_mov_mem_open() -> (r: Vec<char>)
    ensures
        r@ == f_mov_mem_open(),
{
    let mut v: Vec<char> = Vec::new();
    push_all(&mut v, &[' ', ' ', ' ', ' ', 'm', 'o', 'v', ' ', '[', 'r', 'b', 'p', ' ', '-', ' ']);
    assert(v@ =~= f_mov_mem_open());
    v
}

pub open spec fn f_close_rax() -> Seq<char> {
    seq![']', ',', ' ', 'r', 'a', 'x']
}

fn k_close_rax() -> (r: Vec<char>)
    ensures
        r@ == f_close_rax(),
{
    let mut v: Vec<char> = Vec::new();
    push_all(&mut v, &[']', ',', ' ', 'r', 'a', 'x']);
    assert(v@ =~= f_close_rax());
    v
}

pub open spec fn f_test_rax() -> Seq<char> {
    seq![' ', ' ', ' ', ' ', 't', 'e', 's', 't', ' ', 'r', 'a', 'x', ',', ' ', 'r', 'a', 'x']
}

fn k_test_rax() -> (r: Vec<char>)
    ensures
        r@ == f_test_rax(),
{
    let mut v: Vec<char> = Vec::new();
    push_all(&mut v, &[' ', ' ', ' ', ' ', 't', 'e', 's', 't', ' ', 'r', 'a', 'x', ',', ' ', 'r', 'a', 'x']);
    assert(v@ =~= f_test_rax());
    v
}

pub open spec fn f_setne_al() -> Seq<char> {
    seq![' ', ' ', ' ', ' ', 's', 'e', 't', 'n', 'e', ' ', 'a', 'l']
}

fn k_setne_al() -> (r: Vec<char>)
    ensures
        r@ == f_setne_al(),
{
    let mut v: Vec<char> = Vec::new();
    push_all(&mut v, &[' ', ' ', ' ', ' ', 's', 'e', 't', 'n', 'e', ' ', 'a', 'l']);
    assert(v@ =~= f_setne_al());
    v
}

pub open spec fn f_movzx_rax() -> Seq<char> {
    seq![' ', ' ', ' ', ' ', 'm', 'o', 'v', 'z', 'x', ' ', 'r', 'a', 'x', ',', ' ', 'a', 'l']
}

fn k_movzx_rax() -> (r: Vec<char>)
    ensures
        r@ == f_movzx_rax(),
{
    let mut v: Vec<char> = Vec::new();
    push_all(&mut v, &[' ', ' ', ' ', ' ', 'm', 'o', 'v', 'z', 'x', ' ', 'r', 'a', 'x', ',', ' ', 'a', 'l']);
    assert(v@ =~= f_movzx_rax());
    v
}

pub open spec fn f_mov_rcx() -> Seq<char> {
    seq![' ', ' ', ' ', ' ', 'm', 'o', 'v', ' ', 'r', 'c', 'x', ',', ' ']
}

fn k_mov_rcx() -> (r: Vec<char>)
    ensures
        r@ == f_mov_rcx(),
{
    let mut v: Vec<char> = Vec::new();
    push_all(&mut v, &[' ', ' ', ' ', ' ', 'm', 'o', 'v', ' ', 'r', 'c', 'x', ',', ' ']);
    assert(v@ =~= f_mov_rcx());
    v
}

pub open spec fn f_test_rcx() -> Seq<char> {
    seq![' ', ' ', ' ', ' ', 't', 'e', 's', 't', ' ', 'r', 'c', 'x', ',', ' ', 'r', 'c', 'x']
}

fn k_test_rcx() -> (r: Vec<char>)
    ensures
        r@ == f_test_rcx(),
{
    let mut v: Vec<char> = Vec::new();
    push_all(&mut v, &[' ', ' ', ' ', ' ', 't', 'e', 's', 't', ' ', 'r', 'c', 'x', ',', ' ', 'r', 'c', 'x']);
    assert(v@ =~= f_test_rcx());
    v
}

pub open spec fn f_setne_cl() -> Seq<char> {
    seq![' ', ' ', ' ', ' ', 's', 'e', 't', 'n', 'e', ' ', 'c', 'l']
}

fn k_setne_cl() -> (r: Vec<char>)
    ensures
        r@ == f_setne_cl(),
{
    let mut v: Vec<char> = Vec::new();
    push_all(&mut v, &[' ', ' ', ' ', ' ', 's', 'e', 't', 'n', 'e', ' ', 'c', 'l']);
    assert(v@ =~= f_setne_cl());
    v
}

pub open spec fn f_movzx_rcx() -> Seq<char> {
    seq![' ', ' ', ' ', ' ', 'm', 'o', 'v', 'z', 'x', ' ', 'r', 'c', 'x', ',', ' ', 'c', 'l']
}

fn k_movzx_rcx() -> (r: Vec<char>)
    ensures
        r@ == f_movzx_rcx(),
{
    let mut v: Vec<char> = Vec::new();
    push_all(&mut v, &[' ', ' ', ' ', ' ', 'm', 'o', 'v', 'z', 'x', ' ', 'r', 'c', 'x', ',', ' ', 'c', 'l']);
    assert(v@ =~= f_movzx_rcx());
    v
}

pub open spec fn f_rax_rcx() -> Seq<char> {
    seq![' ', 'r', 'a', 'x', ',', ' ', 'r', 'c', 'x']
}

fn k_rax_rcx() -> (r: Vec<char>)
    ensures
        r@ == f_rax_rcx(),
{
    let mut v: Vec<char> = Vec::new();
    push_all(&mut v, &[' ', 'r', 'a', 'x', ',', ' ', 'r', 'c', 'x']);
    assert(v@ =~= f_rax_rcx());
    v
}

pub open spec fn f_movss_xmm0_dword() -> Seq<char> {
    seq![' ', ' ', ' ', ' ', 'm', 'o', 'v', 's', 's', ' ', 'x', 'm', 'm', '0', ',', ' ', 'd', 'w', 'o', 'r', 'd', ' ']
}

fn k_movss_xmm0_dword() -> (r: Vec<char>)
    ensures
        r@ == f_movss_xmm0_dword(),
{
    let mut v: Vec<char> = Vec::new();
    push_all(&mut v, &[' ', ' ', ' ', ' ', 'm', 'o', 'v', 's', 's', ' ', 'x', 'm', 'm', '0', ',', ' ', 'd', 'w', 'o', 'r', 'd', ' ']);
    assert(v@ =~= f_movss_xmm0_dword());
    v
}

pub open spec fn f_movss_xmm1_dword() -> Seq<char> {
    seq![' ', ' ', ' ', ' ', 'm', 'o', 'v', 's', 's', ' ', 'x', 'm', 'm', '1', ',', ' ', 'd', 'w', 'o', 'r', 'd', ' ']
}

fn k_movss_xmm1_dword() -> (r: Vec<char>)
    ensures
        r@ == f_movss_xmm1_dword(),
{
    let mut v: Vec<char> = Vec::new();
    push_all(&mut v, &[' ', ' ', ' ', ' ', 'm', 'o', 'v', 's', 's', ' ', 'x', 'm', 'm', '1', ',', ' ', 'd', 'w', 'o', 'r', 'd', ' ']);
    assert(v@ =~= f_movss_xmm1_dword());
    v
}

pub open spec fn f_xmm0_xmm1() -> Seq<char> {
    seq![' ', 'x', 'm', 'm', '0', ',', ' ', 'x', 'm', 'm', '1']
}

fn k_xmm0_xmm1() -> (r: Vec<char>)
    ensures
        r@ == f_xmm0_xmm1(),
{
    let mut v: Vec<char> = Vec::new();
    push_all(&mut v, &[' ', 'x', 'm', 'm', '0', ',', ' ', 'x', 'm', 'm', '1']);
    assert(v@ =~= f_xmm0_xmm1());
    v
}

pub open spec fn f_movss_dword_open() -> Seq<char> {
    seq![' ', ' ', ' ', ' ', 'm', 'o', 'v', 's', 's', ' ', 'd', 'w', 'o', 'r', 'd', ' ', '[', 'r', 'b', 'p', ' ', '-', ' ']
}

fn k_movss_dword_open() -> (r: Vec<char>)
    ensures
        r@ == f_movss_dword_open(),
{
    let mut v: Vec<char> = Vec::new();
    push_all(&mut v, &[' ', ' ', ' ', ' ', 'm', 'o', 'v', 's', 's', ' ', 'd', 'w', 'o', 'r', 'd', ' ', '[', 'r', 'b', 'p', ' ', '-', ' ']);
    assert(v@ =~= f_movss_dword_open());
    v
}

pub open spec fn f_close_xmm0() -> Seq<char> {
    seq![']', ',', ' ', 'x', 'm', 'm', '0']
}

fn k_close_xmm0() -> (r: Vec<char>)
    ensures
        r@ == f_close_xmm0(),
{
    let mut v: Vec<char> = Vec::new();
    push_all(&mut v, &[']', ',', ' ', 'x', 'm', 'm', '0']);
    assert(v@ =~= f_close_xmm0());
    v
}

pub open spec fn f_movsd_xmm0_qword() -> Seq<char> {
    seq![' ', ' ', ' ', ' ', 'm', 'o', 'v', 's', 'd', ' ', 'x', 'm', 'm', '0', ',', ' ', 'q', 'w', 'o', 'r', 'd', ' ']
}

fn k_movsd_xmm0_qword() -> (r: Vec<char>)
    ensures
        r@ == f_movsd_xmm0_qword(),
{
    let mut v: Vec<char> = Vec::new();
    push_all(&mut v, &[' ', ' ', ' ', ' ', 'm', 'o', 'v', 's', 'd', ' ', 'x', 'm', 'm', '0', ',', ' ', 'q', 'w', 'o', 'r', 'd', ' ']);
    assert(v@ =~= f_movsd_xmm0_qword());
    v
}

pub open spec fn f_movsd_xmm1_qword() -> Seq<char> {
    seq![' ', ' ', ' ', ' ', 'm', 'o', 'v', 's', 'd', ' ', 'x', 'm', 'm', '1', ',', ' ', 'q', 'w', 'o', 'r', 'd', ' ']
}

fn k_movsd_xmm1_qword() -> (r: Vec<char>)
    ensures
        r@ == f_movsd_xmm1_qword(),
{
    let mut v: Vec<char> = Vec::new();
    push_all(&mut v, &[' ', ' ', ' ', ' ', 'm', 'o', 'v', 's', 'd', ' ', 'x', 'm', 'm', '1', ',', ' ', 'q', 'w', 'o', 'r', 'd', ' ']);
    assert(v@ =~= f_movsd_xmm1_qword());
    v
}

pub open spec fn f_movsd_qword_open() -> Seq<char> {
    seq![' ', ' ', ' ', ' ', 'm', 'o', 'v', 's', 'd', ' ', 'q', 'w', 'o', 'r', 'd', ' ', '[', 'r', 'b', 'p', ' ', '-', ' ']
}

fn k_movsd_qword_open() -> (r: Vec<char>)
    ensures
        r@ == f_movsd_qword_open(),
{
    let mut v: Vec<char> = Vec::new();
    push_all(&mut v, &[' ', ' ', ' ', ' ', 'm', 'o', 'v', 's', 'd', ' ', 'q', 'w', 'o', 'r', 'd', ' ', '[', 'r', 'b', 'p', ' ', '-', ' ']);
    assert(v@ =~= f_movsd_qword_open());
    v
}

pub open spec fn f_colon() -> Seq<char> {
    seq![':']
}

fn k_colon() -> (r: Vec<char>)
    ensures
        r@ == f_colon(),
{
    let mut v: Vec<char> = Vec::new();
    push_all(&mut v, &[':']);
    assert(v@ =~= f_colon());
    v
}

pub open spec fn f_dd() -> Seq<char> {
    seq![' ', 'd', 'd', ' ']
}

fn k_dd() -> (r: Vec<char>)
    ensures
        r@ == f_dd(),
{
    let mut v: Vec<char> = Vec::new();
    push_all(&mut v, &[' ', 'd', 'd', ' ']);
    assert(v@ =~= f_dd());
    v
}

pub open spec fn f_dq() -> Seq<char> {
    seq![' ', 'd', 'q', ' ']
}

fn k_dq() -> (r: Vec<char>)
    ensures
        r@ == f_dq(),
{
    let mut v: Vec<char> = Vec::new();
    push_all(&mut v, &[' ', 'd', 'q', ' ']);
    assert(v@ =~= f_dq());
    v
}

pub open spec fn f_flt() -> Seq<char> {
    seq!['_', '_', 'f', 'l', 't', '_']
}

fn k_flt() -> (r: Vec<char>)
    ensures
        r@ == f_flt(),
{
    let mut v: Vec<char> = Vec::new();
    push_all(&mut v, &['_', '_', 'f', 'l', 't', '_']);
    assert(v@ =~= f_flt());
    v
}

pub open spec fn f_dbl() -> Seq<char> {
    seq!['_', '_', 'd', 'b', 'l', '_']
}

fn k_dbl() -> (r: Vec<char>)
    ensures
        r@ == f_dbl(),
{
    let mut v: Vec<char> = Vec::new();
    push_all(&mut v, &['_', '_', 'd', 'b', 'l', '_']);
    assert(v@ =~= f_dbl());
    v
}

pub open spec fn f_ucomiss_dword() -> Seq<char> {
    seq![' ', ' ', ' ', ' ', 'u', 'c', 'o', 'm', 'i', 's', 's', ' ', 'x', 'm', 'm', '0', ',', ' ', 'd', 'w', 'o', 'r', 'd', ' ']
}

fn k_ucomiss_dword() -> (r: Vec<char>)
    ensures
        r@ == f_ucomiss_dword(),
{
    let mut v: Vec<char> = Vec::new();
    push_all(&mut v, &[' ', ' ', ' ', ' ', 'u', 'c', 'o', 'm', 'i', 's', 's', ' ', 'x', 'm', 'm', '0', ',', ' ', 'd', 'w', 'o', 'r', 'd', ' ']);
    assert(v@ =~= f_ucomiss_dword());
    v
}

pub open spec fn f_ucomisd_qword() -> Seq<char> {
    seq![' ', ' ', ' ', ' ', 'u', 'c', 'o', 'm', 'i', 's', 'd', ' ', 'x', 'm', 'm', '0', ',', ' ', 'q', 'w', 'o', 'r', 'd', ' ']
}

fn k_ucomisd_qword() -> (r: Vec<char>)
    ensures
        r@ == f_ucomisd_qword(),
{
    let mut v: Vec<char> = Vec::new();
    push_all(&mut v, &[' ', ' ', ' ', ' ', 'u', 'c', 'o', 'm', 'i', 's', 'd', ' ', 'x', 'm', 'm', '0', ',', ' ', 'q', 'w', 'o', 'r', 'd', ' ']);
    assert(v@ =~= f_ucomisd_qword());
    v
}

pub open spec fn f_sete_al() -> Seq<char> {
    seq![' ', ' ', ' ', ' ', 's', 'e', 't', 'e', ' ', 'a', 'l']
}

fn k_sete_al() -> (r: Vec<char>)
    ensures
        r@ == f_sete_al(),
{
    let mut v: Vec<char> = Vec::new();
    push_all(&mut v, &[' ', ' ', ' ', ' ', 's', 'e', 't', 'e', ' ', 'a', 'l']);
    assert(v@ =~= f_sete_al());
    v
}

pub open spec fn f_setl_al() -> Seq<char> {
    seq![' ', ' ', ' ', ' ', 's', 'e', 't', 'l', ' ', 'a', 'l']
}

fn k_setl_al() -> (r: Vec<char>)
    ensures
        r@ == f_setl_al(),
{
    let mut v: Vec<char> = Vec::new();
    push_all(&mut v, &[' ', ' ', ' ', ' ', 's', 'e', 't', 'l', ' ', 'a', 'l']);
    assert(v@ =~= f_setl_al());
    v
}

pub open spec fn f_setg_al() -> Seq<char> {
    seq![' ', ' ', ' ', ' ', 's', 'e', 't', 'g', ' ', 'a', 'l']
}

fn k_setg_al() -> (r: Vec<char>)
    ensures
        r@ == f_setg_al(),
{
    let mut v: Vec<char> = Vec::new();
    push_all(&mut v, &[' ', ' ', ' ', ' ', 's', 'e', 't', 'g', ' ', 'a', 'l']);
    assert(v@ =~= f_setg_al());
    v
}

pub open spec fn f_setb_al() -> Seq<char> {
    seq![' ', ' ', ' ', ' ', 's', 'e', 't', 'b', ' ', 'a', 'l']
}

fn k_setb_al() -> (r: Vec<char>)
    ensures
        r@ == f_setb_al(),
{
    let mut v: Vec<char> = Vec::new();
    push_all(&mut v, &[' ', ' ', ' ', ' ', 's', 'e', 't', 'b', ' ', 'a', 'l']);
    assert(v@ =~= f_setb_al());
    v
}

pub open spec fn f_seta_al() -> Seq<char> {
    seq![' ', ' ', ' ', ' ', 's', 'e', 't', 'a', ' ', 'a', 'l']
}

fn k_seta_al() -> (r: Vec<char>)
    ensures
        r@ == f_seta_al(),
{
    let mut v: Vec<char> = Vec::new();
    push_all(&mut v, &[' ', ' ', ' ', ' ', 's', 'e', 't', 'a', ' ', 'a', 'l']);
    assert(v@ =~= f_seta_al());
    v
}

pub open spec fn f_setge_al() -> Seq<char> {
    seq![' ', ' ', ' ', ' ', 's', 'e', 't', 'g', 'e', ' ', 'a', 'l']
}

fn k_setge_al() -> (r: Vec<char>)
    ensures
        r@ == f_setge_al(),
{
    let mut v: Vec<char> = Vec::new();
    push_all(&mut v, &[' ', ' ', ' ', ' ', 's', 'e', 't', 'g', 'e', ' ', 'a', 'l']);
    assert(v@ =~= f_setge_al());
    v
}

pub open spec fn f_setle_al() -> Seq<char> {
    seq![' ', ' ', ' ', ' ', 's', 'e', 't', 'l', 'e', ' ', 'a', 'l']
}

fn k_setle_al() -> (r: Vec<char>)
    ensures
        r@ == f_setle_al(),
{
    let mut v: Vec<char> = Vec::new();
    push_all(&mut v, &[' ', ' ', ' ', ' ', 's', 'e', 't', 'l', 'e', ' ', 'a', 'l']);
    assert(v@ =~= f_setle_al());
    v
}

pub open spec fn f_setae_al() -> Seq<char> {
    seq![' ', ' ', ' ', ' ', 's', 'e', 't', 'a', 'e', ' ', 'a', 'l']
}

fn k_setae_al() -> (r: Vec<char>)
    ensures
        r@ == f_setae_al(),
{
    let mut v: Vec<char> = Vec::new();
    push_all(&mut v, &[' ', ' ', ' ', ' ', 's', 'e', 't', 'a', 'e', ' ', 'a', 'l']);
    assert(v@ =~= f_setae_al());
    v
}

pub open spec fn f_setbe_al() -> Seq<char> {
    seq![' ', ' ', ' ', ' ', 's', 'e', 't', 'b', 'e', ' ', 'a', 'l']
}

fn k_setbe_al() -> (r: Vec<char>)
    ensures
        r@ == f_setbe_al(),
{
    let mut v: Vec<char> = Vec::new();
    push_all(&mut v, &[' ', ' ', ' ', ' ', 's', 'e', 't', 'b', 'e', ' ', 'a', 'l']);
    assert(v@ =~= f_setbe_al());
    v
}

pub open spec fn f_cqo() -> Seq<char> {
    seq![' ', ' ', ' ', ' ', 'c', 'q', 'o']
}

fn k_cqo() -> (r: Vec<char>)
    ensures
        r@ == f_cqo(),
{
    let mut v: Vec<char> = Vec::new();
    push_all(&mut v, &[' ', ' ', ' ', ' ', 'c', 'q', 'o']);
    assert(v@ =~= f_cqo());
    v
}

pub open spec fn f_idiv_rcx() -> Seq<char> {
    seq![' ', ' ', ' ', ' ', 'i', 'd', 'i', 'v', ' ', 'r', 'c', 'x']
}

fn k_idiv_rcx() -> (r: Vec<char>)
    ensures
        r@ == f_idiv_rcx(),
{
    let mut v: Vec<char> = Vec::new();
    push_all(&mut v, &[' ', ' ', ' ', ' ', 'i', 'd', 'i', 'v', ' ', 'r', 'c', 'x']);
    assert(v@ =~= f_idiv_rcx());
    v
}

pub open spec fn f_compare_rax() -> Seq<char> {
    seq![' ', ' ', ' ', ' ', 'c', 'm', 'p', ' ', 'r', 'a', 'x', ',', ' ']
}

fn k_compare_rax() -> (r: Vec<char>)
    ensures
        r@ == f_compare_rax(),
{
    let mut v: Vec<char> = Vec::new();
    push_all(&mut v, &[' ', ' ', ' ', ' ', 'c', 'm', 'p', ' ', 'r', 'a', 'x', ',', ' ']);
    assert(v@ =~= f_compare_rax());
    v
}

pub open spec fn f_push_rbp() -> Seq<char> {
    seq![' ', ' ', ' ', ' ', 'p', 'u', 's', 'h', ' ', 'r', 'b', 'p']
}

fn k_push_rbp() -> (r: Vec<char>)
    ensures
        r@ == f_push_rbp(),
{
    let mut v: Vec<char> = Vec::new();
    push_all(&mut v, &[' ', ' ', ' ', ' ', 'p', 'u', 's', 'h', ' ', 'r', 'b', 'p']);
    assert(v@ =~= f_push_rbp());
    v
}

pub open spec fn f_mov_rbp_rsp() -> Seq<char> {
    seq![' ', ' ', ' ', ' ', 'm', 'o', 'v', ' ', 'r', 'b', 'p', ',', ' ', 'r', 's', 'p']
}

fn k_mov_rbp_rsp() -> (r: Vec<char>)
    ensures
        r@ == f_mov_rbp_rsp(),
{
    let mut v: Vec<char> = Vec::new();
    push_all(&mut v, &[' ', ' ', ' ', ' ', 'm', 'o', 'v', ' ', 'r', 'b', 'p', ',', ' ', 'r', 's', 'p']);
    assert(v@ =~= f_mov_rbp_rsp());
    v
}

pub open spec fn f_sub_rsp() -> Seq<char> {
    seq![' ', ' ', ' ', ' ', 's', 'u', 'b', ' ', 'r', 's', 'p', ',', ' ']
}

fn k_sub_rsp() -> (r: Vec<char>)
    ensures
        r@ == f_sub_rsp(),
{
    let mut v: Vec<char> = Vec::new();
    push_all(&mut v, &[' ', ' ', ' ', ' ', 's', 'u', 'b', ' ', 'r', 's', 'p', ',', ' ']);
    assert(v@ =~= f_sub_rsp());
    v
}

pub open spec fn f_close_comma() -> Seq<char> {
    seq![']', ',', ' ']
}

fn k_close_comma() -> (r: Vec<char>)
    ensures
        r@ == f_close_comma(),
{
    let mut v: Vec<char> = Vec::new();
    push_all(&mut v, &[']', ',', ' ']);
    assert(v@ =~= f_close_comma());
    v
}

pub open spec fn f_exit_main() -> Seq<char> {
    seq![' ', ' ', ' ', ' ', ';', ' ', 'e', 'x', 'i', 't', ' ', 'm', 'a', 'i', 'n']
}

fn k_exit_main() -> (r: Vec<char>)
    ensures
        r@ == f_exit_main(),
{
    let mut v: Vec<char> = Vec::new();
    push_all(&mut v, &[' ', ' ', ' ', ' ', ';', ' ', 'e', 'x', 'i', 't', ' ', 'm', 'a', 'i', 'n']);
    assert(v@ =~= f_exit_main());
    v
}

pub open spec fn f_mov_rax_0() -> Seq<char> {
    seq![' ', ' ', ' ', ' ', 'm', 'o', 'v', ' ', 'r', 'a', 'x', ',', ' ', '0']
}

fn k_mov_rax_0() -> (r: Vec<char>)
    ensures
        r@ == f_mov_rax_0(),
{
    let mut v: Vec<char> = Vec::new();
    push_all(&mut v, &[' ', ' ', ' ', ' ', 'm', 'o', 'v', ' ', 'r', 'a', 'x', ',', ' ', '0']);
    assert(v@ =~= f_mov_rax_0());
    v
}

pub open spec fn f_mov_rsp_rbp() -> Seq<char> {
    seq![' ', ' ', ' ', ' ', 'm', 'o', 'v', ' ', 'r', 's', 'p', ',', ' ', 'r', 'b', 'p']
}

fn k_mov_rsp_rbp() -> (r: Vec<char>)
    ensures
        r@ == f_mov_rsp_rbp(),
{
    let mut v: Vec<char> = Vec::new();
    push_all(&mut v, &[' ', ' ', ' ', ' ', 'm', 'o', 'v', ' ', 'r', 's', 'p', ',', ' ', 'r', 'b', 'p']);
    assert(v@ =~= f_mov_rsp_rbp());
    v
}

pub open spec fn f_pop_rbp() -> Seq<char> {
    seq![' ', ' ', ' ', ' ', 'p', 'o', 'p', ' ', 'r', 'b', 'p']
}

fn k_pop_rbp() -> (r: Vec<char>)
    ensures
        r@ == f_pop_rbp(),
{
    let mut v: Vec<char> = Vec::new();
    push_all(&mut v, &[' ', ' ', ' ', ' ', 'p', 'o', 'p', ' ', 'r', 'b', 'p']);
    assert(v@ =~= f_pop_rbp());
    v
}

pub open spec fn f_ret() -> Seq<char> {
    seq![' ', ' ', ' ', ' ', 'r', 'e', 't']
}

fn k_ret() -> (r: Vec<char>)
    ensures
        r@ == f_ret(),
{
    let mut v: Vec<char> = Vec::new();
    push_all(&mut v, &[' ', ' ', ' ', ' ', 'r', 'e', 't']);
    assert(v@ =~= f_ret());
    v
}

pub open spec fn f_movss_sp() -> Seq<char> {
    seq![' ', ' ', ' ', ' ', 'm', 'o', 'v', 's', 's', ' ']
}

fn k_movss_sp() -> (r: Vec<char>)
    ensures
        r@ == f_movss_sp(),
{
    let mut v: Vec<char> = Vec::new();
    push_all(&mut v, &[' ', ' ', ' ', ' ', 'm', 'o', 'v', 's', 's', ' ']);
    assert(v@ =~= f_movss_sp());
    v
}

pub open spec fn f_movsd_sp() -> Seq<char> {
    seq![' ', ' ', ' ', ' ', 'm', 'o', 'v', 's', 'd', ' ']
}

fn k_movsd_sp() -> (r: Vec<char>)
    ensures
        r@ == f_movsd_sp(),
{
    let mut v: Vec<char> = Vec::new();
    push_all(&mut v, &[' ', ' ', ' ', ' ', 'm', 'o', 'v', 's', 'd', ' ']);
    assert(v@ =~= f_movsd_sp());
    v
}

pub open spec fn f_comma_dword() -> Seq<char> {
    seq![',', ' ', 'd', 'w', 'o', 'r', 'd', ' ']
}

fn k_comma_dword() -> (r: Vec<char>)
    ensures
        r@ == f_comma_dword(),
{
    let mut v: Vec<char> = Vec::new();
    push_all(&mut v, &[',', ' ', 'd', 'w', 'o', 'r', 'd', ' ']);
    assert(v@ =~= f_comma_dword());
    v
}

pub open spec fn f_comma_qword() -> Seq<char> {
    seq![',', ' ', 'q', 'w', 'o', 'r', 'd', ' ']
}

fn k_comma_qword() -> (r: Vec<char>)
    ensures
        r@ == f_comma_qword(),
{
    let mut v: Vec<char> = Vec::new();
    push_all(&mut v, &[',', ' ', 'q', 'w', 'o', 'r', 'd', ' ']);
    assert(v@ =~= f_comma_qword());
    v
}

pub open spec fn f_mov_sp() -> Seq<char> {
    seq![' ', ' ', ' ', ' ', 'm', 'o', 'v', ' ']
}

fn k_mov_sp() -> (r: Vec<char>)
    ensures
        r@ == f_mov_sp(),
{
    let mut v: Vec<char> = Vec::new();
    push_all(&mut v, &[' ', ' ', ' ', ' ', 'm', 'o', 'v', ' ']);
    assert(v@ =~= f_mov_sp());
    v
}

pub open spec fn f_comma_sp() -> Seq<char> {
    seq![',', ' ']
}

fn k_comma_sp() -> (r: Vec<char>)
    ensures
        r@ == f_comma_sp(),
{
    let mut v: Vec<char> = Vec::new();
    push_all(&mut v, &[',', ' ']);
    assert(v@ =~= f_comma_sp());
    v
}

pub open spec fn f_call_sp() -> Seq<char> {
    seq![' ', ' ', ' ', ' ', 'c', 'a', 'l', 'l', ' ']
}

fn k_call_sp() -> (r: Vec<char>)
    ensures
        r@ == f_call_sp(),
{
    let mut v: Vec<char> = Vec::new();
    push_all(&mut v, &[' ', ' ', ' ', ' ', 'c', 'a', 'l', 'l', ' ']);
    assert(v@ =~= f_call_sp());
    v
}

pub open spec fn f_jne() -> Seq<char> {
    seq!['j', 'n', 'e']
}

fn k_jne() -> (r: Vec<char>)
    ensures
        r@ == f_jne(),
{
    let mut v: Vec<char> = Vec::new();
    push_all(&mut v, &['j', 'n', 'e']);
    assert(v@ =~= f_jne());
    v
}

pub open spec fn f_space() -> Seq<char> {
    seq![' ']
}

fn k_space() -> (r: Vec<char>)
    ensures
        r@ == f_space(),
{
    let mut v: Vec<char> = Vec::new();
    push_all(&mut v, &[' ']);
    assert(v@ =~= f_space());
    v
}

pub open spec fn f_xorps() -> Seq<char> {
    seq![' ', ' ', ' ', ' ', 'x', 'o', 'r', 'p', 's', ' ', 'x', 'm', 'm', '1', ',', ' ', 'x', 'm', 'm', '1']
}

fn k_xorps() -> (r: Vec<char>)
    ensures
        r@ == f_xorps(),
{
    let mut v: Vec<char> = Vec::new();
    push_all(&mut v, &[' ', ' ', ' ', ' ', 'x', 'o', 'r', 'p', 's', ' ', 'x', 'm', 'm', '1', ',', ' ', 'x', 'm', 'm', '1']);
    assert(v@ =~= f_xorps());
    v
}

pub open spec fn f_ucomiss_x() -> Seq<char> {
    seq![' ', ' ', ' ', ' ', 'u', 'c', 'o', 'm', 'i', 's', 's', ' ', 'x', 'm', 'm', '0', ',', ' ', 'x', 'm', 'm', '1']
}

fn k_ucomiss_x() -> (r: Vec<char>)
    ensures
        r@ == f_ucomiss_x(),
{
    let mut v: Vec<char> = Vec::new();
    push_all(&mut v, &[' ', ' ', ' ', ' ', 'u', 'c', 'o', 'm', 'i', 's', 's', ' ', 'x', 'm', 'm', '0', ',', ' ', 'x', 'm', 'm', '1']);
    assert(v@ =~= f_ucomiss_x());
    v
}

pub open spec fn f_je_sp() -> Seq<char> {
    seq![' ', ' ', ' ', ' ', 'j', 'e', ' ']
}

fn k_je_sp() -> (r: Vec<char>)
    ensures
        r@ == f_je_sp(),
{
    let mut v: Vec<char> = Vec::new();
    push_all(&mut v, &[' ', ' ', ' ', ' ', 'j', 'e', ' ']);
    assert(v@ =~= f_je_sp());
    v
}

pub open spec fn f_xorpd() -> Seq<char> {
    seq![' ', ' ', ' ', ' ', 'x', 'o', 'r', 'p', 'd', ' ', 'x', 'm', 'm', '1', ',', ' ', 'x', 'm', 'm', '1']
}

fn k_xorpd() -> (r: Vec<char>)
    ensures
        r@ == f_xorpd(),
{
    let mut v: Vec<char> = Vec::new();
    push_all(&mut v, &[' ', ' ', ' ', ' ', 'x', 'o', 'r', 'p', 'd', ' ', 'x', 'm', 'm', '1', ',', ' ', 'x', 'm', 'm', '1']);
    assert(v@ =~= f_xorpd());
    v
}

pub open spec fn f_ucomisd_x() -> Seq<char> {
    seq![' ', ' ', ' ', ' ', 'u', 'c', 'o', 'm', 'i', 's', 'd', ' ', 'x', 'm', 'm', '0', ',', ' ', 'x', 'm', 'm', '1']
}

fn k_ucomisd_x() -> (r: Vec<char>)
    ensures
        r@ == f_ucomisd_x(),
{
    let mut v: Vec<char> = Vec::new();
    push_all(&mut v, &[' ', ' ', ' ', ' ', 'u', 'c', 'o', 'm', 'i', 's', 'd', ' ', 'x', 'm', 'm', '0', ',', ' ', 'x', 'm', 'm', '1']);
    assert(v@ =~= f_ucomisd_x());
    v
}

pub open spec fn f_jmp_sp() -> Seq<char> {
    seq![' ', ' ', ' ', ' ', 'j', 'm', 'p', ' ']
}

fn k_jmp_sp() -> (r: Vec<char>)
    ensures
        r@ == f_jmp_sp(),
{
    let mut v: Vec<char> = Vec::new();
    push_all(&mut v, &[' ', ' ', ' ', ' ', 'j', 'm', 'p', ' ']);
    assert(v@ =~= f_jmp_sp());
    v
}

pub open spec fn f_loop_suffix() -> Seq<char> {
    seq!['_', 'l', 'o', 'o', 'p']
}

fn k_loop_suffix() -> (r: Vec<char>)
    ensures
        r@ == f_loop_suffix(),
{
    let mut v: Vec<char> = Vec::new();
    push_all(&mut v, &['_', 'l', 'o', 'o', 'p']);
    assert(v@ =~= f_loop_suffix());
    v
}

pub open spec fn f_qmark() -> Seq<char> {
    seq!['?']
}

fn k_qmark() -> (r: Vec<char>)
    ensures
        r@ == f_qmark(),
{
    let mut v: Vec<char> = Vec::new();
    push_all(&mut v, &['?']);
    assert(v@ =~= f_qmark());
    v
}

pub open spec fn f_main() -> Seq<char> {
    seq!['m', 'a', 'i', 'n']
}

fn k_main() -> (r: Vec<char>)
    ensures
        r@ == f_main(),
{
    let mut v: Vec<char> = Vec::new();
    push_all(&mut v, &['m', 'a', 'i', 'n']);
    assert(v@ =~= f_main());
    v
}

pub open spec fn f_true_w() -> Seq<char> {
    seq!['t', 'r', 'u', 'e']
}

fn k_true_w() -> (r: Vec<char>)
    ensures
        r@ == f_true_w(),
{
    let mut v: Vec<char> = Vec::new();
    push_all(&mut v, &['t', 'r', 'u', 'e']);
    assert(v@ =~= f_true_w());
    v
}

pub open spec fn f_one() -> Seq<char> {
    seq!['1']
}

fn k_one() -> (r: Vec<char>)
    ensures
        r@ == f_one(),
{
    let mut v: Vec<char> = Vec::new();
    push_all(&mut v, &['1']);
    assert(v@ =~= f_one());
    v
}

pub open spec fn f_zero() -> Seq<char> {
    seq!['0']
}

fn k_zero() -> (r: Vec<char>)
    ensures
        r@ == f_zero(),
{
    let mut v: Vec<char> = Vec::new();
    push_all(&mut v, &['0']);
    assert(v@ =~= f_zero());
    v
}

pub open spec fn f_addss() -> Seq<char> {
    seq!['a', 'd', 'd', 's', 's']
}

fn k_addss() -> (r: Vec<char>)
    ensures
        r@ == f_addss(),
{
    let mut v: Vec<char> = Vec::new();
    push_all(&mut v, &['a', 'd', 'd', 's', 's']);
    assert(v@ =~= f_addss());
    v
}

pub open spec fn f_addsd() -> Seq<char> {
    seq!['a', 'd', 'd', 's', 'd']
}

fn k_addsd() -> (r: Vec<char>)
    ensures
        r@ == f_addsd(),
{
    let mut v: Vec<char> = Vec::new();
    push_all(&mut v, &['a', 'd', 'd', 's', 'd']);
    assert(v@ =~= f_addsd());
    v
}

pub open spec fn f_and_w() -> Seq<char> {
    seq!['a', 'n', 'd']
}

fn k_and_w() -> (r: Vec<char>)
    ensures
        r@ == f_and_w(),
{
    let mut v: Vec<char> = Vec::new();
    push_all(&mut v, &['a', 'n', 'd']);
    assert(v@ =~= f_and_w());
    v
}

pub open spec fn f_or_w() -> Seq<char> {
    seq!['o', 'r']
}

fn k_or_w() -> (r: Vec<char>)
    ensures
        r@ == f_or_w(),
{
    let mut v: Vec<char> = Vec::new();
    push_all(&mut v, &['o', 'r']);
    assert(v@ =~= f_or_w());
    v
}



pub open spec fn f_bits() -> Seq<char> {
    seq!['b', 'i', 't', 's', ' ', '6', '4']
}

fn k_bits() -> (r: Vec<char>)
    ensures
        r@ == f_bits(),
{
    let mut v: Vec<char> = Vec::new();
    push_all(&mut v, &['b', 'i', 't', 's', ' ', '6', '4']);
    assert(v@ =~= f_bits());
    v
}

pub open spec fn f_sec_data() -> Seq<char> {
    seq!['s', 'e', 'c', 't', 'i', 'o', 'n', ' ', '.', 'd', 'a', 't', 'a']
}

fn k_sec_data() -> (r: Vec<char>)
    ensures
        r@ == f_sec_data(),
{
    let mut v: Vec<char> = Vec::new();
    push_all(&mut v, &['s', 'e', 'c', 't', 'i', 'o', 'n', ' ', '.', 'd', 'a', 't', 'a']);
    assert(v@ =~= f_sec_data());
    v
}

pub open spec fn f_fmt_int() -> Seq<char> {
    seq![' ', ' ', ' ', ' ', 'f', 'm', 't', '_', 'i', 'n', 't', ' ', ' ', ' ', ' ', 'd', 'b', ' ', '"', '%', 'd', '"', ',', ' ', '1', '0', ',', ' ', '0']
}

fn k_fmt_int() -> (r: Vec<char>)
    ensures
        r@ == f_fmt_int(),
{
    let mut v: Vec<char> = Vec::new();
    push_all(&mut v, &[' ', ' ', ' ', ' ', 'f', 'm', 't', '_', 'i', 'n', 't', ' ', ' ', ' ', ' ', 'd', 'b', ' ', '"', '%', 'd', '"', ',', ' ', '1', '0', ',', ' ', '0']);
    assert(v@ =~= f_fmt_int());
    v
}

pub open spec fn f_fmt_float() -> Seq<char> {
    seq![' ', ' ', ' ', ' ', 'f', 'm', 't', '_', 'f', 'l', 'o', 'a', 't', ' ', ' ', ' ', ' ', 'd', 'b', ' ', '"', '%', 'f', '"', ',', ' ', '1', '0', ',', ' ', '0']
}

fn k_fmt_float() -> (r: Vec<char>)
    ensures
        r@ == f_fmt_float(),
{
    let mut v: Vec<char> = Vec::new();
    push_all(&mut v, &[' ', ' ', ' ', ' ', 'f', 'm', 't', '_', 'f', 'l', 'o', 'a', 't', ' ', ' ', ' ', ' ', 'd', 'b', ' ', '"', '%', 'f', '"', ',', ' ', '1', '0', ',', ' ', '0']);
    assert(v@ =~= f_fmt_float());
    v
}

pub open spec fn f_fmt_bool() -> Seq<char> {
    seq![' ', ' ', ' ', ' ', 'f', 'm', 't', '_', 'b', 'o', 'o', 'l', ' ', ' ', ' ', 'd', 'b', ' ', '"', '%', 's', '"', ',', ' ', '1', '0', ',', ' ', '0']
}

fn k_fmt_bool() -> (r: Vec<char>)
    ensures
        r@ == f_fmt_bool(),
{
    let mut v: Vec<char> = Vec::new();
    push_all(&mut v, &[' ', ' ', ' ', ' ', 'f', 'm', 't', '_', 'b', 'o', 'o', 'l', ' ', ' ', ' ', 'd', 'b', ' ', '"', '%', 's', '"', ',', ' ', '1', '0', ',', ' ', '0']);
    assert(v@ =~= f_fmt_bool());
    v
}

pub open spec fn f_fmt_char() -> Seq<char> {
    seq![' ', ' ', ' ', ' ', 'f', 'm', 't', '_', 'c', 'h', 'a', 'r', ' ', ' ', ' ', 'd', 'b', ' ', '"', '%', 'c', '"', ',', ' ', '1', '0', ',', ' ', '0']
}

fn k_fmt_char() -> (r: Vec<char>)
    ensures
        r@ == f_fmt_char(),
{
    let mut v: Vec<char> = Vec::new();
    push_all(&mut v, &[' ', ' ', ' ', ' ', 'f', 'm', 't', '_', 'c', 'h', 'a', 'r', ' ', ' ', ' ', 'd', 'b', ' ', '"', '%', 'c', '"', ',', ' ', '1', '0', ',', ' ', '0']);
    assert(v@ =~= f_fmt_char());
    v
}

pub open spec fn f_fmt_string() -> Seq<char> {
    seq![' ', ' ', ' ', ' ', 'f', 'm', 't', '_', 's', 't', 'r', 'i', 'n', 'g', ' ', 'd', 'b', ' ', '"', '%', 's', '"', ',', ' ', '1', '0', ',', ' ', '0']
}

fn k_fmt_string() -> (r: Vec<char>)
    ensures
        r@ == f_fmt_string(),
{
    let mut v: Vec<char> = Vec::new();
    push_all(&mut v, &[' ', ' ', ' ', ' ', 'f', 'm', 't', '_', 's', 't', 'r', 'i', 'n', 'g', ' ', 'd', 'b', ' ', '"', '%', 's', '"', ',', ' ', '1', '0', ',', ' ', '0']);
    assert(v@ =~= f_fmt_string());
    v
}

pub open spec fn f_str_true() -> Seq<char> {
    seq![' ', ' ', ' ', ' ', 's', 't', 'r', '_', 't', 'r', 'u', 'e', ' ', ' ', ' ', 'd', 'b', ' ', '"', 't', 'r', 'u', 'e', '"', ',', ' ', '0']
}

fn k_str_true() -> (r: Vec<char>)
    ensures
        r@ == f_str_true(),
{
    let mut v: Vec<char> = Vec::new();
    push_all(&mut v, &[' ', ' ', ' ', ' ', 's', 't', 'r', '_', 't', 'r', 'u', 'e', ' ', ' ', ' ', 'd', 'b', ' ', '"', 't', 'r', 'u', 'e', '"', ',', ' ', '0']);
    assert(v@ =~= f_str_true());
    v
}

pub open spec fn f_str_false() -> Seq<char> {
    seq![' ', ' ', ' ', ' ', 's', 't', 'r', '_', 'f', 'a', 'l', 's', 'e', ' ', ' ', 'd', 'b', ' ', '"', 'f', 'a', 'l', 's', 'e', '"', ',', ' ', '0']
}

fn k_str_false() -> (r: Vec<char>)
    ensures
        r@ == f_str_false(),
{
    let mut v: Vec<char> = Vec::new();
    push_all(&mut v, &[' ', ' ', ' ', ' ', 's', 't', 'r', '_', 'f', 'a', 'l', 's', 'e', ' ', ' ', 'd', 'b', ' ', '"', 'f', 'a', 'l', 's', 'e', '"', ',', ' ', '0']);
    assert(v@ =~= f_str_false());
    v
}

pub open spec fn f_sec_rodata() -> Seq<char> {
    seq!['s', 'e', 'c', 't', 'i', 'o', 'n', ' ', '.', 'r', 'o', 'd', 'a', 't', 'a']
}

fn k_sec_rodata() -> (r: Vec<char>)
    ensures
        r@ == f_sec_rodata(),
{
    let mut v: Vec<char> = Vec::new();
    push_all(&mut v, &['s', 'e', 'c', 't', 'i', 'o', 'n', ' ', '.', 'r', 'o', 'd', 'a', 't', 'a']);
    assert(v@ =~= f_sec_rodata());
    v
}

pub open spec fn f_sec_text() -> Seq<char> {
    seq!['s', 'e', 'c', 't', 'i', 'o', 'n', ' ', '.', 't', 'e', 'x', 't']
}

fn k_sec_text() -> (r: Vec<char>)
    ensures
        r@ == f_sec_text(),
{
    let mut v: Vec<char> = Vec::new();
    push_all(&mut v, &['s', 'e', 'c', 't', 'i', 'o', 'n', ' ', '.', 't', 'e', 'x', 't']);
    assert(v@ =~= f_sec_text());
    v
}

pub open spec fn f_extern_printf() -> Seq<char> {
    seq![' ', ' ', ' ', ' ', 'e', 'x', 't', 'e', 'r', 'n', ' ', 'p', 'r', 'i', 'n', 't', 'f']
}

fn k_extern_printf() -> (r: Vec<char>)
    ensures
        r@ == f_extern_printf(),
{
    let mut v: Vec<char> = Vec::new();
    push_all(&mut v, &[' ', ' ', ' ', ' ', 'e', 'x', 't', 'e', 'r', 'n', ' ', 'p', 'r', 'i', 'n', 't', 'f']);
    assert(v@ =~= f_extern_printf());
    v
}

pub open spec fn f_global_main() -> Seq<char> {
    seq![' ', ' ', ' ', ' ', 'g', 'l', 'o', 'b', 'a', 'l', ' ', 'm', 'a', 'i', 'n']
}

fn k_global_main() -> (r: Vec<char>)
    ensures
        r@ == f_global_main(),
{
    let mut v: Vec<char> = Vec::new();
    push_all(&mut v, &[' ', ' ', ' ', ' ', 'g', 'l', 'o', 'b', 'a', 'l', ' ', 'm', 'a', 'i', 'n']);
    assert(v@ =~= f_global_main());
    v
}

/// The integer argument registers, in calling-convention order.
pub open spec fn arg_reg(i: nat) -> Seq<char> {
    seq![seq!['r', 'd', 'i'], seq!['r', 's', 'i'], seq!['r', 'd', 'x'], seq!['r', 'c', 'x'], seq!['r', '8'], seq!['r', '9']][i as int]
}

/// The floating-point argument registers `xmm0` to `xmm7`.
pub open spec fn fp_reg(i: nat) -> Seq<char> {
    seq!['x', 'm', 'm'] + decimal(i)
}

fn k_arg_reg(i: usize) -> (r: Vec<char>)
    requires
        i < 6,
    ensures
        r@ == arg_reg(i as nat),
{
    let mut v: Vec<char> = Vec::new();
    match i {
        0 => push_all(&mut v, &['r', 'd', 'i']),
        1 => push_all(&mut v, &['r', 's', 'i']),
        2 => push_all(&mut v, &['r', 'd', 'x']),
        3 => push_all(&mut v, &['r', 'c', 'x']),
        4 => push_all(&mut v, &['r', '8']),
        _ => push_all(&mut v, &['r', '9']),
    }
    assert(v@ =~= arg_reg(i as nat));
    v
}

fn k_fp_reg(i: usize) -> (r: Vec<char>)
    requires
        i < 8,
    ensures
        r@ == fp_reg(i as nat),
{
    let mut v: Vec<char> = Vec::new();
    push_all(&mut v, &['x', 'm', 'm']);
    push_decimal(&mut v, i as u64);
    assert(v@ =~= fp_reg(i as nat));
    v
}

/// `a` followed by `b`.
fn cat(a: Vec<char>, b: &[char]) -> (r: Vec<char>)
    ensures
        r@ == a@ + b@,
{
    let mut a = a;
    push_all(&mut a, b);
    a
}

/// `a` followed by the signed decimal rendering of `x`.
fn cat_num(a: Vec<char>, x: i64) -> (r: Vec<char>)
    ensures
        r@ == a@ + signed_decimal(x as int),
{
    let mut a = a;
    push_signed(&mut a, x);
    a
}

// ---------------------------------------------------------------------------
// Stack slots.

/// Where an operand lives: a stack slot at `rbp - n`, an immediate, or a
/// label in read-only data.
pub enum Slot {
    Mem(i32),
    Const(String),
    Data(String),
}

pub enum SlotM {
    Mem(int),
    Const(Seq<char>),
    Data(Seq<char>),
}

impl View for Slot {
    type V = SlotM;

    open spec fn view(&self) -> SlotM {
        match self {
            Slot::Mem(o) => SlotM::Mem(*o as int),
            Slot::Const(s) => SlotM::Const(s@),
            Slot::Data(s) => SlotM::Data(s@),
        }
    }
}

/// The operand text of a slot.
pub open spec fn slot_text(s: SlotM) -> Seq<char> {
    match s {
        SlotM::Mem(o) => f_rbp_open() + signed_decimal(o) + f_close(),
        SlotM::Const(v) => v,
        SlotM::Data(l) => f_rel_open() + l + f_close(),
    }
}

impl Slot {
    /// The operand text of the slot.
    pub fn to_asm_op(&self) -> (r: Vec<char>)
        ensures
            r@ == slot_text(self@),
    {
        match self {
            Slot::Mem(off) => cat(cat_num(k_rbp_open(), *off as i64), k_close().as_slice()),
            Slot::Const(val) => chars_of(val.as_str()),
            Slot::Data(label) => cat(cat(k_rel_open(), chars_of(label.as_str()).as_slice()), k_close().as_slice()),
        }
    }
}

/// The names given a slot so far; a later entry for a name replaces an earlier one.
pub open spec fn slot_map_of(s: Seq<(Vec<char>, i32, TokenType)>) -> Map<Seq<char>, (int, TokenType)>
    decreases s.len(),
{
    if s.len() == 0 {
        Map::empty()
    } else {
        slot_map_of(s.drop_last()).insert(s.last().0@, (s.last().1 as int, canon(s.last().2)))
    }
}

proof fn lemma_slot_map_suffix(s: Seq<(Vec<char>, i32, TokenType)>, i: int, k: Seq<char>)
    requires
        0 <= i <= s.len(),
        forall|j: int| i <= j < s.len() ==> (#[trigger] s[j]).0@ != k,
    ensures
        slot_map_of(s).dom().contains(k) == slot_map_of(s.take(i)).dom().contains(k),
        slot_map_of(s).dom().contains(k) ==> slot_map_of(s)[k] == slot_map_of(s.take(i))[k],
    decreases s.len() - i,
{
    if i < s.len() {
        let t = s.drop_last();
        assert(t.take(i) =~= s.take(i));
        assert forall|j: int| i <= j < t.len() implies (#[trigger] t[j]).0@ != k by {
            assert(t[j] == s[j]);
        }
        lemma_slot_map_suffix(t, i, k);
    } else {
        assert(s.take(i) =~= s);
    }
}

/// A map from names to their slot offsets and types.
pub struct SlotMap {
    entries: Vec<(Vec<char>, i32, TokenType)>,
}

impl View for SlotMap {
    type V = Map<Seq<char>, (int, TokenType)>;

    closed spec fn view(&self) -> Map<Seq<char>, (int, TokenType)> {
        slot_map_of(self.entries@)
    }
}

impl SlotMap {
    fn new() -> (r: SlotMap)
        ensures
            r@ == Map::<Seq<char>, (int, TokenType)>::empty(),
    {
        SlotMap { entries: Vec::new() }
    }

    fn get(&self, name: &[char]) -> (r: Option<(i32, TokenType)>)
        ensures
            match r {
                Some((o, t)) => self@.dom().contains(name@) && self@[name@] == (o as int, canon(t)),
                None => !self@.dom().contains(name@),
            },
    {
        let mut i = self.entries.len();
        while i > 0
            invariant
                i <= self.entries@.len(),
                forall|j: int| i <= j < self.entries@.len() ==> (#[trigger] self.entries@[j]).0@ != name@,
            decreases i,
        {
            i = i - 1;
            if chars_eq(self.entries[i].0.as_slice(), name) {
                proof {
                    let s = self.entries@;
                    assert forall|j: int| i + 1 <= j < s.len() implies (#[trigger] s[j]).0@ != name@ by {}
                    lemma_slot_map_suffix(s, i + 1, name@);
                    assert(s.take(i + 1).drop_last() =~= s.take(i as int));
                    assert(s.take(i + 1).last() == s[i as int]);
                }
                return Some((self.entries[i].1, self.entries[i].2.copy()));
            }
        }
        proof {
            lemma_slot_map_suffix(self.entries@, 0, name@);
            assert(self.entries@.take(0) =~= Seq::<(Vec<char>, i32, TokenType)>::empty());
        }
        None
    }

    fn insert(&mut self, name: Vec<char>, off: i32, t: TokenType)
        ensures
            final(self)@ == old(self)@.insert(name@, (off as int, canon(t))),
    {
        let ghost before = self.entries@;
        self.entries.push((name, off, t));
        assert(self.entries@.drop_last() =~= before);
    }
}

// ---------------------------------------------------------------------------
// What the generator emits, over models.

/// The generator's state: the text section, read-only data, the slots of
/// the current function, the lowest offset used, the function being
/// emitted, the built-in code copied in, and counters.
pub struct CgM {
    pub file: Seq<Seq<char>>,
    pub rodata: Seq<Seq<char>>,
    pub slots: Map<Seq<char>, (int, TokenType)>,
    pub offset: int,
    pub current_fn: Seq<char>,
    pub embedded: Seq<Seq<char>>,
    pub fp_count: nat,
    pub pint: nat,
    pub pfp: nat,
}

pub open spec fn cg_start() -> CgM {
    CgM {
        file: seq![],
        rodata: seq![],
        slots: Map::empty(),
        offset: 0,
        current_fn: seq![],
        embedded: seq![],
        fp_count: 0,
        pint: 0,
        pfp: 0,
    }
}

pub open spec fn put(c: CgM, line: Seq<char>) -> CgM {
    CgM { file: c.file.push(line), ..c }
}

pub open spec fn is_f32_token(t: TokenType) -> bool {
    t is Float || t is FloatLiteral
}

pub open spec fn is_f64_token(t: TokenType) -> bool {
    t is Double || t is DoubleLiteral
}

pub open spec fn tac_is_f32(t: TacM) -> bool {
    t.value_type is Some && is_f32_token(t.value_type->0)
}

pub open spec fn tac_is_f64(t: TacM) -> bool {
    t.value_type is Some && is_f64_token(t.value_type->0)
}

/// The type known for a name: the type its slot was given, or its own kind.
pub open spec fn name_token(c: CgM, name: Seq<char>) -> TokenType {
    if c.slots.dom().contains(name) {
        c.slots[name].1
    } else {
        canon(token_of(name))
    }
}

pub open spec fn fits_i32(x: int) -> bool {
    i32::MIN <= x <= i32::MAX
}

/// The slot of an operand: float and double literals get a read-only data
/// label (holding the number without its `f` or `d` suffix), other literals are immediates (`true` is 1, `false` 0), and a name
/// gets the slot it has or a new one 8 bytes further down.
pub open spec fn alloc_slot(c: CgM, name: Seq<char>) -> Option<(CgM, SlotM)> {
    let token = token_of(name);
    if token is FloatLiteral {
        if c.fp_count + 1 > usize::MAX {
            None
        } else {
            let label = f_flt() + decimal(c.fp_count);
            let val = if name.len() > 0 && (name.last() == 'f' || name.last() == 'F') {
                name.drop_last()
            } else {
                name
            };
            Some((CgM { fp_count: c.fp_count + 1, rodata: c.rodata.push(f_sp4() + label + f_dd() + val), ..c }, SlotM::Data(label)))
        }
    } else if token is DoubleLiteral {
        if c.fp_count + 1 > usize::MAX {
            None
        } else {
            let label = f_dbl() + decimal(c.fp_count);
            let val = if name.len() > 0 && (name.last() == 'd' || name.last() == 'D') {
                name.drop_last()
            } else {
                name
            };
            Some((CgM { fp_count: c.fp_count + 1, rodata: c.rodata.push(f_sp4() + label + f_dq() + val), ..c }, SlotM::Data(label)))
        }
    } else if is_value_token(token) && !(token is Unknow) {
        if token is BoolLiteral {
            if name == f_true_w() {
                Some((c, SlotM::Const(f_one())))
            } else {
                Some((c, SlotM::Const(f_zero())))
            }
        } else {
            Some((c, SlotM::Const(name)))
        }
    } else if c.slots.dom().contains(name) {
        if !fits_i32(-c.slots[name].0) {
            None
        } else {
            Some((c, SlotM::Mem(-c.slots[name].0)))
        }
    } else {
        let off = c.offset - 8;
        if !fits_i32(off) || !fits_i32(-off) {
            None
        } else {
            Some((CgM { offset: off, slots: c.slots.insert(name, (off, canon(token))), ..c }, SlotM::Mem(-off)))
        }
    }
}

/// The stack slots of a function are disjoint: each lies between the lowest
/// offset in use and the frame base, which is not below it, and no two names
/// share one.
pub open spec fn slots_disjoint(c: CgM) -> bool {
    &&& c.offset <= 0
    &&& forall|n: Seq<char>| #[trigger] c.slots.dom().contains(n) ==> c.offset <= c.slots[n].0 < 0
    &&& forall|n1: Seq<char>, n2: Seq<char>|
        #[trigger] c.slots.dom().contains(n1) && #[trigger] c.slots.dom().contains(n2) && n1 != n2
            ==> c.slots[n1].0 != c.slots[n2].0
}

/// Giving an operand its slot keeps the slots of a function disjoint and
/// never raises the lowest offset; and asking again for the same operand,
/// unless it is a float or double literal (each of which gets a new
/// read-only data label), gives the same slot and changes nothing.
pub proof fn lemma_alloc_slot_stable(c: CgM, name: Seq<char>)
    requires
        slots_disjoint(c),
        alloc_slot(c, name) is Some,
    ensures
        ({
            let (c1, s) = alloc_slot(c, name)->0;
            &&& slots_disjoint(c1)
            &&& c1.offset <= c.offset
            &&& c1.file == c.file
            &&& (!(token_of(name) is FloatLiteral) && !(token_of(name) is DoubleLiteral))
                ==> alloc_slot(c1, name) == Some((c1, s))
        }),
{
    let (c1, s) = alloc_slot(c, name)->0;
    let token = token_of(name);
    if !(token is FloatLiteral) && !(token is DoubleLiteral) && !(is_value_token(token) && !(token is Unknow))
        && !c.slots.dom().contains(name) {
        let off = c.offset - 8;
        assert(c1.slots == c.slots.insert(name, (off, canon(token))));
        assert forall|n1: Seq<char>, n2: Seq<char>|
            #[trigger] c1.slots.dom().contains(n1) && #[trigger] c1.slots.dom().contains(n2) && n1 != n2
                implies c1.slots[n1].0 != c1.slots[n2].0 by {
            if n1 != name && n2 != name {
                assert(c.slots.dom().contains(n1) && c.slots.dom().contains(n2));
            } else if n1 == name {
                assert(c.slots.dom().contains(n2));
            } else {
                assert(c.slots.dom().contains(n1));
            }
        }
        assert forall|n: Seq<char>| #[trigger] c1.slots.dom().contains(n) implies c1.offset <= c1.slots[n].0 < 0 by {
            if n != name {
                assert(c.slots.dom().contains(n));
            }
        }
    }
}

/// The slot of a name (a word that is no literal): a name that has a slot
/// gets it again and nothing changes; a new name gets the slot 8 bytes below
/// the lowest offset in use, which becomes the lowest, and its type (its own
/// kind) is recorded with it. Nothing is given only where the offset leaves
/// the range of `i32`.
pub proof fn lemma_alloc_slot_of_name(c: CgM, name: Seq<char>)
    requires
        !is_value_token(token_of(name)) || token_of(name) is Unknow,
    ensures
        c.slots.dom().contains(name) ==> alloc_slot(c, name) == if fits_i32(-c.slots[name].0) {
            Some((c, SlotM::Mem(-c.slots[name].0)))
        } else {
            None
        },
        !c.slots.dom().contains(name) ==> alloc_slot(c, name) == if fits_i32(c.offset - 8) && fits_i32(8 - c.offset) {
            Some((
                CgM { offset: c.offset - 8, slots: c.slots.insert(name, (c.offset - 8, canon(token_of(name)))), ..c },
                SlotM::Mem(8 - c.offset),
            ))
        } else {
            None
        },
{
}

pub open spec fn bin_op(c: CgM, op: Seq<char>, a: SlotM, b: SlotM, t: int) -> CgM {
    put(put(put(put(c, f_mov_rax() + slot_text(a)), f_sp4() + op + f_rax_comma() + slot_text(b)),
        f_mov_mem_open() + signed_decimal(t) + f_close_rax()), seq![])
}

/// An integer division `a / b` (truncating, as `idiv` does): `a` in `rax`
/// sign-extended into `rdx`, divided by `b` in `rcx`, the quotient stored.
pub open spec fn div_op(c: CgM, a: SlotM, b: SlotM, t: int) -> CgM {
    put(put(put(put(put(put(c, f_mov_rax() + slot_text(a)), f_mov_rcx() + slot_text(b)), f_cqo()), f_idiv_rcx()),
        f_mov_mem_open() + signed_decimal(t) + f_close_rax()), seq![])
}

pub open spec fn bin_copy(c: CgM, a: SlotM, t: int) -> CgM {
    put(put(put(c, f_mov_rax() + slot_text(a)), f_mov_mem_open() + signed_decimal(t) + f_close_rax()), seq![])
}

pub open spec fn logical_op(c: CgM, combine: Seq<char>, a: SlotM, b: SlotM, t: int) -> CgM {
    let c1 = put(put(put(put(c, f_mov_rax() + slot_text(a)), f_test_rax()), f_setne_al()), f_movzx_rax());
    let c2 = put(put(put(put(c1, f_mov_rcx() + slot_text(b)), f_test_rcx()), f_setne_cl()), f_movzx_rcx());
    put(put(put(c2, f_sp4() + combine + f_rax_rcx()), f_mov_mem_open() + signed_decimal(t) + f_close_rax()), seq![])
}

pub open spec fn f32_bin_op(c: CgM, op: Seq<char>, a: SlotM, b: SlotM, t: int) -> CgM {
    put(put(put(put(put(c, f_movss_xmm0_dword() + slot_text(a)), f_movss_xmm1_dword() + slot_text(b)),
        f_sp4() + op + f_xmm0_xmm1()), f_movss_dword_open() + signed_decimal(t) + f_close_xmm0()), seq![])
}

pub open spec fn f32_copy(c: CgM, a: SlotM, t: int) -> CgM {
    put(put(put(c, f_movss_xmm0_dword() + slot_text(a)), f_movss_dword_open() + signed_decimal(t) + f_close_xmm0()), seq![])
}

pub open spec fn f64_bin_op(c: CgM, op: Seq<char>, a: SlotM, b: SlotM, t: int) -> CgM {
    put(put(put(put(put(c, f_movsd_xmm0_qword() + slot_text(a)), f_movsd_xmm1_qword() + slot_text(b)),
        f_sp4() + op + f_xmm0_xmm1()), f_movsd_qword_open() + signed_decimal(t) + f_close_xmm0()), seq![])
}

pub open spec fn f64_copy(c: CgM, a: SlotM, t: int) -> CgM {
    put(put(put(c, f_movsd_xmm0_qword() + slot_text(a)), f_movsd_qword_open() + signed_decimal(t) + f_close_xmm0()), seq![])
}

/// The `set` instruction that turns the flags of a comparison into 0 or 1:
/// signed conditions for integers, the unsigned ones that `ucomiss` and
/// `ucomisd` set for floats and doubles; none for other operators. (`<`,
/// `>`, `<=`, `>=`, `==`, `!=`.)
pub open spec fn set_instr(op: Operator, fp: bool) -> Option<Seq<char>> {
    if op == Operator::LogicalEquals {
        Some(f_sete_al())
    } else if op == Operator::NotEquals {
        Some(f_setne_al())
    } else if op == Operator::LessThan {
        Some(if fp { f_setb_al() } else { f_setl_al() })
    } else if op == Operator::GreaterThan {
        Some(if fp { f_seta_al() } else { f_setg_al() })
    } else if op == Operator::GreaterThanEquals {
        Some(if fp { f_setae_al() } else { f_setge_al() })
    } else if op == Operator::LessThanEquals {
        Some(if fp { f_setbe_al() } else { f_setle_al() })
    } else {
        None
    }
}

/// A comparison of `a` with `b` stored as 0 or 1, by the `set` instruction given.
pub open spec fn compare_op(c: CgM, single: bool, double: bool, set: Seq<char>, a: SlotM, b: SlotM, t: int) -> CgM {
    let c1 = if single {
        put(put(c, f_movss_xmm0_dword() + slot_text(a)), f_ucomiss_dword() + slot_text(b))
    } else if double {
        put(put(c, f_movsd_xmm0_qword() + slot_text(a)), f_ucomisd_qword() + slot_text(b))
    } else {
        put(put(c, f_mov_rax() + slot_text(a)), f_compare_rax() + slot_text(b))
    };
    put(put(put(put(c1, set), f_movzx_rax()), f_mov_mem_open() + signed_decimal(t) + f_close_rax()), seq![])
}

/// An assignment or a declaration: the target's slot, the first operand's
/// slot, and the operation, chosen by the float and double types of the
/// instruction or of its first operand.
pub open spec fn cg_var(c: CgM, t: TacM) -> Option<CgM> {
    match t.result {
        None => None,
        Some(name) => match alloc_slot(c, name) {
            None => None,
            Some((c1, s)) => match s {
                SlotM::Mem(t_off) => if t.arguments.len() == 0 || !fits_i32(-t_off) {
                    None
                } else {
                    let a_arg = t.arguments[0];
                    let a_tok = name_token(c1, a_arg);
                    let single = tac_is_f32(t) || is_f32_token(a_tok);
                    let double = tac_is_f64(t) || is_f64_token(a_tok);
                    match alloc_slot(c1, a_arg) {
                        None => None,
                        Some((c2, a_slot)) => {
                            let c3 = CgM { slots: c2.slots.insert(name, (-t_off, a_tok)), ..c2 };
                            match t.operator {
                                None => Some(
                                    if single {
                                        f32_copy(c3, a_slot, t_off)
                                    } else if double {
                                        f64_copy(c3, a_slot, t_off)
                                    } else {
                                        bin_copy(c3, a_slot, t_off)
                                    },
                                ),
                                Some(op) => if t.arguments.len() < 2 {
                                    None
                                } else {
                                    match alloc_slot(c3, t.arguments[1]) {
                                        None => None,
                                        Some((c4, b_slot)) => Some(
                                            if op == Operator::LogicalAnd {
                                                logical_op(c4, f_and_w(), a_slot, b_slot, t_off)
                                            } else if op == Operator::LogicalOr {
                                                logical_op(c4, f_or_w(), a_slot, b_slot, t_off)
                                            } else if set_instr(op, single || double) is Some {
                                                compare_op(c4, single, double, set_instr(op, single || double)->0, a_slot, b_slot, t_off)
                                            } else if op == Operator::Division && !single && !double {
                                                div_op(c4, a_slot, b_slot, t_off)
                                            } else if single {
                                                f32_bin_op(
                                                    c4,
                                                    match op_asm_f32(op) { Some(x) => x, None => f_addss() },
                                                    a_slot,
                                                    b_slot,
                                                    t_off,
                                                )
                                            } else if double {
                                                f64_bin_op(
                                                    c4,
                                                    match op_asm_f64(op) { Some(x) => x, None => f_addsd() },
                                                    a_slot,
                                                    b_slot,
                                                    t_off,
                                                )
                                            } else {
                                                bin_op(
                                                    c4,
                                                    match op_asm(op) { Some(x) => x, None => f_qmark() },
                                                    a_slot,
                                                    b_slot,
                                                    t_off,
                                                )
                                            },
                                        ),
                                    }
                                },
                            }
                        },
                    }
                },
                _ => None,
            },
        },
    }
}

pub open spec fn arg_or(t: TacM, i: int, d: Seq<char>) -> Seq<char> {
    if 0 <= i < t.arguments.len() {
        t.arguments[i]
    } else {
        d
    }
}

/// A function's label and prologue, reserving the stack size it was given.
pub open spec fn cg_func(c: CgM, t: TacM) -> CgM {
    let name = arg_or(t, 0, f_qmark());
    let mem = arg_or(t, 1, f_qmark());
    let c1 = CgM { current_fn: name, ..c };
    put(put(put(put(put(c1, name + f_colon()), f_push_rbp()), f_mov_rbp_rsp()), f_sub_rsp() + mem), seq![])
}

/// A parameter's slot, filled from the next argument register of its kind
/// while registers remain.
pub open spec fn cg_param(c: CgM, t: TacM) -> Option<CgM> {
    let name = arg_or(t, 0, f_qmark());
    let ty = match t.value_type {
        Some(x) => x,
        None => TokenType::Int,
    };
    let off = c.offset - 8;
    if !fits_i32(off) || !fits_i32(-off) {
        None
    } else {
        let c1 = CgM { offset: off, slots: c.slots.insert(name, (off, ty)), ..c };
        if ty is Float {
            if c1.pfp < 8 {
                Some(CgM { pfp: c1.pfp + 1, ..put(c1, f_movss_dword_open() + signed_decimal(-off) + f_close_comma() + fp_reg(c1.pfp)) })
            } else {
                Some(c1)
            }
        } else if ty is Double {
            if c1.pfp < 8 {
                Some(CgM { pfp: c1.pfp + 1, ..put(c1, f_movsd_qword_open() + signed_decimal(-off) + f_close_comma() + fp_reg(c1.pfp)) })
            } else {
                Some(c1)
            }
        } else {
            if c1.pint < 6 {
                Some(CgM { pint: c1.pint + 1, ..put(c1, f_mov_mem_open() + signed_decimal(-off) + f_close_comma() + arg_reg(c1.pint)) })
            } else {
                Some(c1)
            }
        }
    }
}

/// The end of `main`: return 0 to the C runtime.
pub open spec fn exit_main(c: CgM) -> CgM {
    put(put(put(put(put(put(c, f_exit_main()), f_mov_rax_0()), f_mov_rsp_rbp()), f_pop_rbp()), f_ret()), seq![])
}

pub open spec fn epilogue(c: CgM) -> CgM {
    put(put(put(put(c, f_mov_rsp_rbp()), f_pop_rbp()), f_ret()), seq![])
}

/// Loading call arguments into registers: integers into `rdi`, `rsi`, ...,
/// floats and doubles into `xmm0`, ...; arguments beyond the registers are dropped.
pub open spec fn call_regs(c: CgM, args: Seq<Seq<char>>, i: nat, int_i: nat, fp_i: nat) -> Option<CgM>
    decreases args.len() - i,
{
    if i >= args.len() {
        Some(c)
    } else {
        let a = args[i as int];
        match alloc_slot(c, a) {
            None => None,
            Some((c1, slot)) => {
                let tok = name_token(c1, a);
                if is_f32_token(tok) {
                    if fp_i < 8 {
                        call_regs(put(c1, f_movss_sp() + fp_reg(fp_i) + f_comma_dword() + slot_text(slot)), args, i + 1, int_i, fp_i + 1)
                    } else {
                        call_regs(c1, args, i + 1, int_i, fp_i)
                    }
                } else if is_f64_token(tok) {
                    if fp_i < 8 {
                        call_regs(put(c1, f_movsd_sp() + fp_reg(fp_i) + f_comma_qword() + slot_text(slot)), args, i + 1, int_i, fp_i + 1)
                    } else {
                        call_regs(c1, args, i + 1, int_i, fp_i)
                    }
                } else {
                    if int_i < 6 {
                        call_regs(put(c1, f_mov_sp() + arg_reg(int_i) + f_comma_sp() + slot_text(slot)), args, i + 1, int_i + 1, fp_i)
                    } else {
                        call_regs(c1, args, i + 1, int_i, fp_i)
                    }
                }
            },
        }
    }
}

/// The lines of a built-in's code, two source lines to an entry; text after
/// the last complete pair is dropped.
pub open spec fn split_pairs(s: Seq<char>, cur: Seq<char>, second: bool) -> Seq<Seq<char>>
    decreases s.len(),
{
    if s.len() == 0 {
        seq![]
    } else {
        let cur2 = cur.push(s[0]);
        if s[0] == '\n' {
            if !second {
                split_pairs(s.drop_first(), cur2, true)
            } else {
                seq![cur2] + split_pairs(s.drop_first(), seq![], false)
            }
        } else {
            split_pairs(s.drop_first(), cur2, second)
        }
    }
}

/// Copies the code of the built-in called `name`, from built-in `i` on, the
/// first time it is called.
pub open spec fn embed_from(c: CgM, name: Seq<char>, i: nat) -> CgM
    decreases builtin_count() - i,
{
    if i >= builtin_count() {
        c
    } else if builtin_name(i as int) == name && !c.embedded.contains(name) {
        CgM { embedded: c.embedded + split_pairs(builtin_code(i as int), seq![], false), ..c }
    } else {
        embed_from(c, name, i + 1)
    }
}

/// A call: its arguments in registers, the call, and the callee's code when
/// it is a built-in.
pub open spec fn cg_call(c: CgM, t: TacM) -> Option<CgM> {
    let name = arg_or(t, 0, f_qmark());
    let args = if t.arguments.len() > 0 {
        t.arguments.skip(1)
    } else {
        seq![]
    };
    match call_regs(c, args, 0, 0, 0) {
        None => None,
        Some(c1) => Some(embed_from(put(put(c1, f_call_sp() + name), seq![]), name, 0)),
    }
}

/// Storing a call's return value: `xmm0` for floats and doubles, `rax` otherwise.
pub open spec fn cg_get_return(c: CgM, t: TacM) -> Option<CgM> {
    match t.result {
        None => None,
        Some(name) => match alloc_slot(c, name) {
            None => None,
            Some((c1, s)) => match s {
                SlotM::Mem(off) => Some(
                    if tac_is_f32(t) {
                        put(c1, f_movss_dword_open() + signed_decimal(off) + f_close_xmm0())
                    } else if tac_is_f64(t) {
                        put(c1, f_movsd_qword_open() + signed_decimal(off) + f_close_xmm0())
                    } else {
                        put(c1, f_mov_mem_open() + signed_decimal(off) + f_close_rax())
                    },
                ),
                _ => None,
            },
        },
    }
}

/// A return: the value (if any) computed and loaded into `xmm0` or `rax`,
/// then the end of the function.
pub open spec fn cg_return(c: CgM, t: TacM) -> Option<CgM> {
    let with_value = match t.result {
        None => Some(c),
        Some(value) => match cg_var(c, t) {
            None => None,
            Some(c1) => match alloc_slot(c1, value) {
                None => None,
                Some((c2, slot)) => Some(
                    put(
                        if tac_is_f32(t) {
                            put(c2, f_movss_xmm0_dword() + slot_text(slot))
                        } else if tac_is_f64(t) {
                            put(c2, f_movsd_xmm0_qword() + slot_text(slot))
                        } else {
                            put(c2, f_mov_rax() + slot_text(slot))
                        },
                        seq![],
                    ),
                ),
            },
        },
    };
    match with_value {
        None => None,
        Some(c3) => Some(if c3.current_fn == f_main() { exit_main(c3) } else { epilogue(c3) }),
    }
}

/// The jump past a conditional's body (or out of a loop) when the condition
/// is false; comparisons are only lowered for `==`.
pub open spec fn cond_jump(c: CgM, label: Seq<char>, t: TacM) -> Option<CgM> {
    let rest = if t.arguments.len() > 0 {
        t.arguments.skip(1)
    } else {
        seq![]
    };
    let jumped = if t.operator is Some && rest.len() == 2 {
        let op = t.operator->0;
        let left = rest[0];
        let right = rest[1];
        match alloc_slot(c, left) {
            None => None,
            Some((c1, a_slot)) => match alloc_slot(c1, right) {
                None => None,
                Some((c2, b_slot)) => {
                    let a_tok = name_token(c2, left);
                    let b_tok = name_token(c2, right);
                    let c3 = if is_f32_token(a_tok) || is_f32_token(b_tok) {
                        put(put(c2, f_movss_xmm0_dword() + slot_text(a_slot)), f_ucomiss_dword() + slot_text(b_slot))
                    } else if is_f64_token(a_tok) || is_f64_token(b_tok) {
                        put(put(c2, f_movsd_xmm0_qword() + slot_text(a_slot)), f_ucomisd_qword() + slot_text(b_slot))
                    } else {
                        put(put(c2, f_mov_rax() + slot_text(a_slot)), f_compare_rax() + slot_text(b_slot))
                    };
                    if op == Operator::LogicalEquals {
                        Some(put(c3, f_sp4() + f_jne() + f_space() + label))
                    } else {
                        None
                    }
                },
            },
        }
    } else if rest.len() == 1 {
        let value = rest[0];
        match alloc_slot(c, value) {
            None => None,
            Some((c1, slot)) => {
                let tok = name_token(c1, value);
                Some(
                    if is_f32_token(tok) {
                        put(put(put(put(c1, f_movss_xmm0_dword() + slot_text(slot)), f_xorps()), f_ucomiss_x()), f_je_sp() + label)
                    } else if is_f64_token(tok) {
                        put(put(put(put(c1, f_movsd_xmm0_qword() + slot_text(slot)), f_xorpd()), f_ucomisd_x()), f_je_sp() + label)
                    } else {
                        put(put(put(c1, f_mov_rax() + slot_text(slot)), f_test_rax()), f_je_sp() + label)
                    },
                )
            },
        }
    } else {
        None
    };
    match jumped {
        None => None,
        Some(c4) => Some(put(c4, seq![])),
    }
}

/// One instruction.
pub open spec fn cg_step(c: CgM, t: TacM) -> Option<CgM> {
    match t.tac_type {
        Type::Variable | Type::Reasingment => cg_var(c, t),
        Type::Function => Some(cg_func(CgM { slots: Map::empty(), offset: 0, pint: 0, pfp: 0, ..c }, t)),
        Type::Param => cg_param(c, t),
        Type::Call => cg_call(c, t),
        Type::Conditional | Type::Loop => if t.arguments.len() == 0 {
            None
        } else {
            cond_jump(c, t.arguments[0], t)
        },
        Type::ConditionalEnd => Some(put(put(c, f_sp4() + arg_or(t, 0, f_qmark()) + f_colon()), seq![])),
        Type::LoopEnd => {
            let label = arg_or(t, 0, f_qmark());
            Some(put(put(put(put(c, f_jmp_sp() + label + f_loop_suffix()), seq![]), f_sp4() + label + f_colon()), seq![]))
        },
        Type::Label => if t.arguments.len() == 0 {
            None
        } else {
            Some(put(c, f_sp4() + t.arguments[0] + f_colon()))
        },
        Type::GetReturn => cg_get_return(c, t),
        Type::Return => cg_return(c, t),
        _ => Some(c),
    }
}

/// Every instruction in order.
pub open spec fn cg_run(c: CgM, tacs: Seq<TacM>) -> Option<CgM>
    decreases tacs.len(),
{
    if tacs.len() == 0 {
        Some(c)
    } else {
        match cg_step(c, tacs[0]) {
            None => None,
            Some(c1) => cg_run(c1, tacs.drop_first()),
        }
    }
}

/// The whole lowering: every instruction, then the end of the last function.
pub open spec fn cg_generate(c: CgM, tacs: Seq<TacM>) -> Option<CgM> {
    match cg_run(c, tacs) {
        None => None,
        Some(c1) => Some(
            if c1.current_fn.len() == 0 {
                c1
            } else if c1.current_fn == f_main() {
                exit_main(c1)
            } else {
                epilogue(c1)
            },
        ),
    }
}


// ---------------------------------------------------------------------------
// The stack slots of a function stay disjoint.

/// Two states with the same slots and lowest offset.
pub open spec fn same_frame(a: CgM, b: CgM) -> bool {
    a.slots == b.slots && a.offset == b.offset
}

proof fn lemma_alloc_keeps(c: CgM, name: Seq<char>)
    requires
        alloc_slot(c, name) is Some,
    ensures
        ({
            let (c1, s) = alloc_slot(c, name)->0;
            &&& forall|k: Seq<char>| #[trigger] c.slots.dom().contains(k)
                ==> c1.slots.dom().contains(k) && c1.slots[k] == c.slots[k]
            &&& s matches SlotM::Mem(m) ==> c1.slots.dom().contains(name) && c1.slots[name].0 == -m
        }),
{
}

proof fn lemma_call_regs_disjoint(c: CgM, args: Seq<Seq<char>>, i: nat, int_i: nat, fp_i: nat)
    requires
        slots_disjoint(c),
    ensures
        call_regs(c, args, i, int_i, fp_i) matches Some(c1) ==> slots_disjoint(c1),
    decreases args.len() - i,
{
    if i < args.len() {
        let a = args[i as int];
        if alloc_slot(c, a) is Some {
            lemma_alloc_slot_stable(c, a);
            let (c1, slot) = alloc_slot(c, a)->0;
            let tok = name_token(c1, a);
            lemma_call_regs_disjoint(c1, args, i + 1, int_i, fp_i);
            lemma_call_regs_disjoint(put(c1, f_movss_sp() + fp_reg(fp_i) + f_comma_dword() + slot_text(slot)), args, i + 1, int_i, fp_i + 1);
            lemma_call_regs_disjoint(put(c1, f_movsd_sp() + fp_reg(fp_i) + f_comma_qword() + slot_text(slot)), args, i + 1, int_i, fp_i + 1);
            lemma_call_regs_disjoint(put(c1, f_mov_sp() + arg_reg(int_i) + f_comma_sp() + slot_text(slot)), args, i + 1, int_i + 1, fp_i);
        }
    }
}

proof fn lemma_embed_frame(c: CgM, name: Seq<char>, i: nat)
    ensures
        same_frame(embed_from(c, name, i), c),
    decreases builtin_count() - i,
{
    if i < builtin_count() {
        lemma_embed_frame(c, name, i + 1);
    }
}

proof fn lemma_cg_var_disjoint(c: CgM, t: TacM)
    requires
        slots_disjoint(c),
    ensures
        cg_var(c, t) matches Some(c1) ==> slots_disjoint(c1),
{
    if let Some(name) = t.result {
        if alloc_slot(c, name) is Some {
            lemma_alloc_slot_stable(c, name);
            let (c1, s) = alloc_slot(c, name)->0;
            lemma_alloc_keeps(c, name);
            if let SlotM::Mem(t_off) = s {
                if t.arguments.len() > 0 && fits_i32(-t_off) {
                    let a_arg = t.arguments[0];
                    let a_tok = name_token(c1, a_arg);
                    if alloc_slot(c1, a_arg) is Some {
                        lemma_alloc_slot_stable(c1, a_arg);
                        lemma_alloc_keeps(c1, a_arg);
                        let (c2, a_slot) = alloc_slot(c1, a_arg)->0;
                        let c3 = CgM { slots: c2.slots.insert(name, (-t_off, a_tok)), ..c2 };
                        assert(c2.slots.dom().contains(name) && c2.slots[name].0 == -t_off);
                        assert(c3.slots.dom() =~= c2.slots.dom());
                        assert forall|n1: Seq<char>, n2: Seq<char>|
                            #[trigger] c3.slots.dom().contains(n1) && #[trigger] c3.slots.dom().contains(n2) && n1 != n2
                                implies c3.slots[n1].0 != c3.slots[n2].0 by {
                            assert(c3.slots[n1].0 == c2.slots[n1].0);
                            assert(c3.slots[n2].0 == c2.slots[n2].0);
                        }
                        assert forall|n: Seq<char>| #[trigger] c3.slots.dom().contains(n) implies c3.offset <= c3.slots[n].0 < 0 by {
                            assert(c3.slots[n].0 == c2.slots[n].0);
                        }
                        assert(slots_disjoint(c3));
                        if t.arguments.len() >= 2 && alloc_slot(c3, t.arguments[1]) is Some {
                            lemma_alloc_slot_stable(c3, t.arguments[1]);
                        }
                    }
                }
            }
        }
    }
}

proof fn lemma_cg_param_disjoint(c: CgM, t: TacM)
    requires
        slots_disjoint(c),
    ensures
        cg_param(c, t) matches Some(c1) ==> slots_disjoint(c1),
{
    let name = arg_or(t, 0, f_qmark());
    let ty = match t.value_type {
        Some(x) => x,
        None => TokenType::Int,
    };
    let off = c.offset - 8;
    let c1 = CgM { offset: off, slots: c.slots.insert(name, (off, ty)), ..c };
    assert forall|n1: Seq<char>, n2: Seq<char>|
        #[trigger] c1.slots.dom().contains(n1) && #[trigger] c1.slots.dom().contains(n2) && n1 != n2
            implies c1.slots[n1].0 != c1.slots[n2].0 by {
        if n1 != name && n2 != name {
            assert(c.slots.dom().contains(n1) && c.slots.dom().contains(n2));
        } else if n1 == name {
            assert(c.slots.dom().contains(n2));
        } else {
            assert(c.slots.dom().contains(n1));
        }
    }
    assert forall|n: Seq<char>| #[trigger] c1.slots.dom().contains(n) implies c1.offset <= c1.slots[n].0 < 0 by {
        if n != name {
            assert(c.slots.dom().contains(n));
        }
    }
}

proof fn lemma_cond_jump_disjoint(c: CgM, label: Seq<char>, t: TacM)
    requires
        slots_disjoint(c),
    ensures
        cond_jump(c, label, t) matches Some(c1) ==> slots_disjoint(c1),
{
    let rest = if t.arguments.len() > 0 {
        t.arguments.skip(1)
    } else {
        seq![]
    };
    if t.operator is Some && rest.len() == 2 {
        if alloc_slot(c, rest[0]) is Some {
            lemma_alloc_slot_stable(c, rest[0]);
            let (c1, a_slot) = alloc_slot(c, rest[0])->0;
            if alloc_slot(c1, rest[1]) is Some {
                lemma_alloc_slot_stable(c1, rest[1]);
            }
        }
    } else if rest.len() == 1 {
        if alloc_slot(c, rest[0]) is Some {
            lemma_alloc_slot_stable(c, rest[0]);
        }
    }
}

proof fn lemma_cg_step_disjoint(c: CgM, t: TacM)
    requires
        slots_disjoint(c),
    ensures
        cg_step(c, t) matches Some(c1) ==> slots_disjoint(c1),
{
    match t.tac_type {
        Type::Variable | Type::Reasingment => lemma_cg_var_disjoint(c, t),
        Type::Function => {
            let c0 = CgM { slots: Map::empty(), offset: 0, pint: 0, pfp: 0, ..c };
            assert(slots_disjoint(c0));
        },
        Type::Param => lemma_cg_param_disjoint(c, t),
        Type::Call => {
            let name = arg_or(t, 0, f_qmark());
            let args = if t.arguments.len() > 0 {
                t.arguments.skip(1)
            } else {
                seq![]
            };
            lemma_call_regs_disjoint(c, args, 0, 0, 0);
            if let Some(c1) = call_regs(c, args, 0, 0, 0) {
                lemma_embed_frame(put(put(c1, f_call_sp() + name), seq![]), name, 0);
            }
        },
        Type::Conditional | Type::Loop => if t.arguments.len() > 0 {
            lemma_cond_jump_disjoint(c, t.arguments[0], t);
        },
        Type::GetReturn => {
            if let Some(name) = t.result {
                if alloc_slot(c, name) is Some {
                    lemma_alloc_slot_stable(c, name);
                }
            }
        },
        Type::Return => {
            if let Some(value) = t.result {
                lemma_cg_var_disjoint(c, t);
                if let Some(c1) = cg_var(c, t) {
                    if alloc_slot(c1, value) is Some {
                        lemma_alloc_slot_stable(c1, value);
                    }
                }
            }
        },
        _ => {},
    }
}

/// Throughout the lowering, the variables, parameters and temporaries of a
/// function never share a stack slot: each has its own offset below the
/// frame base, and every later one lies further down.
pub proof fn lemma_generate_slots_disjoint(c: CgM, tacs: Seq<TacM>)
    requires
        slots_disjoint(c),
    ensures
        cg_run(c, tacs) matches Some(c1) ==> slots_disjoint(c1),
        cg_generate(c, tacs) matches Some(c1) ==> slots_disjoint(c1),
    decreases tacs.len(),
{
    if tacs.len() > 0 {
        lemma_cg_step_disjoint(c, tacs[0]);
        if let Some(c1) = cg_step(c, tacs[0]) {
            lemma_generate_slots_disjoint(c1, tacs.drop_first());
        }
    }
}

// ---------------------------------------------------------------------------
// The generator.

/// Turns three-address code into the lines of an assembly file.
pub struct CodeGen {
    file: Vec<String>,
    rodata: Vec<String>,
    slot_map: SlotMap,
    offset: i32,
    current_fn: String,
    enbeded_funcs: Vec<String>,
    fp_const_count: usize,
    param_int_idx: usize,
    param_fp_idx: usize,
}

impl View for CodeGen {
    type V = CgM;

    closed spec fn view(&self) -> CgM {
        CgM {
            file: strings_view(self.file@),
            rodata: strings_view(self.rodata@),
            slots: self.slot_map@,
            offset: self.offset as int,
            current_fn: self.current_fn@,
            embedded: strings_view(self.enbeded_funcs@),
            fp_count: self.fp_const_count as nat,
            pint: self.param_int_idx as nat,
            pfp: self.param_fp_idx as nat,
        }
    }
}

fn push_line(v: &mut Vec<String>, line: &[char])
    ensures
        strings_view(final(v)@) == strings_view(old(v)@).push(line@),
{
    let ghost before = v@;
    v.push(string_from(line));
    assert(strings_view(v@) =~= strings_view(before).push(line@));
}

fn copy_chars(s: &[char]) -> (r: Vec<char>)
    ensures
        r@ == s@,
{
    let mut r: Vec<char> = Vec::new();
    push_all(&mut r, s);
    r
}

fn is_single(t: &TokenType) -> (r: bool)
    ensures
        r == is_f32_token(*t),
{
    match t {
        TokenType::Float | TokenType::FloatLiteral => true,
        _ => false,
    }
}

fn is_double(t: &TokenType) -> (r: bool)
    ensures
        r == is_f64_token(*t),
{
    match t {
        TokenType::Double | TokenType::DoubleLiteral => true,
        _ => false,
    }
}

fn tac_is_float(t: &Tac) -> (r: bool)
    ensures
        r == tac_is_f32(t@),
{
    match &t.value_type {
        Some(v) => is_single(v),
        None => false,
    }
}

fn tac_is_double(t: &Tac) -> (r: bool)
    ensures
        r == tac_is_f64(t@),
{
    match &t.value_type {
        Some(v) => is_double(v),
        None => false,
    }
}

/// The argument at `i` as characters, or `d` where there is none.
fn arg_chars(t: &Tac, i: usize, d: Vec<char>) -> (r: Vec<char>)
    ensures
        r@ == arg_or(t@, i as int, d@),
{
    if i < t.arguments.len() {
        chars_of(t.arguments[i].as_str())
    } else {
        d
    }
}

impl CodeGen {
    /// A generator with nothing emitted.
    pub fn new() -> (r: Self)
        ensures
            r@ == cg_start(),
    {
        let r = CodeGen {
            file: Vec::new(),
            rodata: Vec::new(),
            slot_map: SlotMap::new(),
            offset: 0,
            current_fn: String::new(),
            enbeded_funcs: Vec::new(),
            fp_const_count: 0,
            param_int_idx: 0,
            param_fp_idx: 0,
        };
        assert(strings_view(r.file@) =~= seq![]);
        assert(strings_view(r.rodata@) =~= seq![]);
        assert(strings_view(r.enbeded_funcs@) =~= seq![]);
        r
    }

    fn emit(&mut self, line: Vec<char>)
        ensures
            final(self)@ == put(old(self)@, line@),
    {
        push_line(&mut self.file, line.as_slice());
    }

    fn emit_blank(&mut self)
        ensures
            final(self)@ == put(old(self)@, seq![]),
    {
        let v: Vec<char> = Vec::new();
        assert(v@ =~= seq![]);
        self.emit(v);
    }

    fn name_token(&self, name: &[char]) -> (r: TokenType)
        ensures
            canon(r) == name_token(self@, name@),
    {
        match self.slot_map.get(name) {
            Some((_, t)) => t,
            None => TokenType::from_chars(name),
        }
    }

    /// The slot of an operand, allocating one for a new name (see
    /// `lemma_alloc_slot_of_name` and `lemma_alloc_slot_stable`).
    pub fn get_or_alloc_slot(&mut self, name: &[char]) -> (r: Option<Slot>)
        ensures
            match alloc_slot(old(self)@, name@) {
                None => r is None,
                Some((c, s)) => r is Some && r->0@ == s && final(self)@ == c,
            },
    {
        let token = TokenType::from_chars(name);
        if matches!(token, TokenType::FloatLiteral) {
            if self.fp_const_count == usize::MAX {
                return None;
            }
            let mut label = k_flt();
            push_decimal(&mut label, self.fp_const_count as u64);
            let n = name.len();
            let val = if n > 0 && (name[n - 1] == 'f' || name[n - 1] == 'F') {
                let v = slice_range(name, 0, n - 1);
                assert(v@ =~= name@.drop_last());
                v
            } else {
                copy_chars(name)
            };
            let line = cat(cat(cat(k_sp4(), label.as_slice()), k_dd().as_slice()), val.as_slice());
            push_line(&mut self.rodata, line.as_slice());
            self.fp_const_count = self.fp_const_count + 1;
            return Some(Slot::Data(string_from(label.as_slice())));
        }
        if matches!(token, TokenType::DoubleLiteral) {
            if self.fp_const_count == usize::MAX {
                return None;
            }
            let mut label = k_dbl();
            push_decimal(&mut label, self.fp_const_count as u64);
            let n = name.len();
            let val = if n > 0 && (name[n - 1] == 'd' || name[n - 1] == 'D') {
                let v = slice_range(name, 0, n - 1);
                assert(v@ =~= name@.drop_last());
                v
            } else {
                copy_chars(name)
            };
            let line = cat(cat(cat(k_sp4(), label.as_slice()), k_dq().as_slice()), val.as_slice());
            push_line(&mut self.rodata, line.as_slice());
            self.fp_const_count = self.fp_const_count + 1;
            return Some(Slot::Data(string_from(label.as_slice())));
        }
        if TokenType::is_value(token.copy()) && !matches!(token, TokenType::Unknow) {
            if matches!(token, TokenType::BoolLiteral) {
                if chars_eq(name, k_true_w().as_slice()) {
                    return Some(Slot::Const(string_from(k_one().as_slice())));
                } else {
                    return Some(Slot::Const(string_from(k_zero().as_slice())));
                }
            }
            return Some(Slot::Const(string_from(name)));
        }
        match self.slot_map.get(name) {
            Some((o, _)) => {
                if o == i32::MIN {
                    return None;
                }
                return Some(Slot::Mem(-o));
            },
            None => {},
        }
        if self.offset < i32::MIN + 8 {
            return None;
        }
        let off = self.offset - 8;
        if off == i32::MIN {
            return None;
        }
        self.offset = off;
        self.slot_map.insert(copy_chars(name), off, token);
        Some(Slot::Mem(-off))
    }
}


impl CodeGen {
    fn code_gen_bin_op(&mut self, op: &[char], a: &Slot, b: &Slot, t_offset: i32)
        ensures
            final(self)@ == bin_op(old(self)@, op@, a@, b@, t_offset as int),
    {
        self.emit(cat(k_mov_rax(), a.to_asm_op().as_slice()));
        self.emit(cat(cat(cat(k_sp4(), op), k_rax_comma().as_slice()), b.to_asm_op().as_slice()));
        self.emit(cat(cat_num(k_mov_mem_open(), t_offset as i64), k_close_rax().as_slice()));
        self.emit_blank();
    }

    fn code_gen_div(&mut self, a: &Slot, b: &Slot, t_offset: i32)
        ensures
            final(self)@ == div_op(old(self)@, a@, b@, t_offset as int),
    {
        self.emit(cat(k_mov_rax(), a.to_asm_op().as_slice()));
        self.emit(cat(k_mov_rcx(), b.to_asm_op().as_slice()));
        self.emit(k_cqo());
        self.emit(k_idiv_rcx());
        self.emit(cat(cat_num(k_mov_mem_open(), t_offset as i64), k_close_rax().as_slice()));
        self.emit_blank();
    }

    fn code_gen_bin_copy(&mut self, a: &Slot, t_offset: i32)
        ensures
            final(self)@ == bin_copy(old(self)@, a@, t_offset as int),
    {
        self.emit(cat(k_mov_rax(), a.to_asm_op().as_slice()));
        self.emit(cat(cat_num(k_mov_mem_open(), t_offset as i64), k_close_rax().as_slice()));
        self.emit_blank();
    }

    fn code_gen_logical_op(&mut self, combine: &[char], a: &Slot, b: &Slot, t_offset: i32)
        ensures
            final(self)@ == logical_op(old(self)@, combine@, a@, b@, t_offset as int),
    {
        self.emit(cat(k_mov_rax(), a.to_asm_op().as_slice()));
        self.emit(k_test_rax());
        self.emit(k_setne_al());
        self.emit(k_movzx_rax());
        self.emit(cat(k_mov_rcx(), b.to_asm_op().as_slice()));
        self.emit(k_test_rcx());
        self.emit(k_setne_cl());
        self.emit(k_movzx_rcx());
        self.emit(cat(cat(k_sp4(), combine), k_rax_rcx().as_slice()));
        self.emit(cat(cat_num(k_mov_mem_open(), t_offset as i64), k_close_rax().as_slice()));
        self.emit_blank();
    }

    fn code_gen_f32_bin_op(&mut self, op: &[char], a: &Slot, b: &Slot, t_offset: i32)
        ensures
            final(self)@ == f32_bin_op(old(self)@, op@, a@, b@, t_offset as int),
    {
        self.emit(cat(k_movss_xmm0_dword(), a.to_asm_op().as_slice()));
        self.emit(cat(k_movss_xmm1_dword(), b.to_asm_op().as_slice()));
        self.emit(cat(cat(k_sp4(), op), k_xmm0_xmm1().as_slice()));
        self.emit(cat(cat_num(k_movss_dword_open(), t_offset as i64), k_close_xmm0().as_slice()));
        self.emit_blank();
    }

    fn code_gen_f32_copy(&mut self, a: &Slot, t_offset: i32)
        ensures
            final(self)@ == f32_copy(old(self)@, a@, t_offset as int),
    {
        self.emit(cat(k_movss_xmm0_dword(), a.to_asm_op().as_slice()));
        self.emit(cat(cat_num(k_movss_dword_open(), t_offset as i64), k_close_xmm0().as_slice()));
        self.emit_blank();
    }

    fn code_gen_f64_bin_op(&mut self, op: &[char], a: &Slot, b: &Slot, t_offset: i32)
        ensures
            final(self)@ == f64_bin_op(old(self)@, op@, a@, b@, t_offset as int),
    {
        self.emit(cat(k_movsd_xmm0_qword(), a.to_asm_op().as_slice()));
        self.emit(cat(k_movsd_xmm1_qword(), b.to_asm_op().as_slice()));
        self.emit(cat(cat(k_sp4(), op), k_xmm0_xmm1().as_slice()));
        self.emit(cat(cat_num(k_movsd_qword_open(), t_offset as i64), k_close_xmm0().as_slice()));
        self.emit_blank();
    }

    fn code_gen_f64_copy(&mut self, a: &Slot, t_offset: i32)
        ensures
            final(self)@ == f64_copy(old(self)@, a@, t_offset as int),
    {
        self.emit(cat(k_movsd_xmm0_qword(), a.to_asm_op().as_slice()));
        self.emit(cat(cat_num(k_movsd_qword_open(), t_offset as i64), k_close_xmm0().as_slice()));
        self.emit_blank();
    }

    fn code_gen_compare(&mut self, single: bool, double: bool, set: &[char], a: &Slot, b: &Slot, t_offset: i32)
        ensures
            final(self)@ == compare_op(old(self)@, single, double, set@, a@, b@, t_offset as int),
    {
        if single {
            self.emit(cat(k_movss_xmm0_dword(), a.to_asm_op().as_slice()));
            self.emit(cat(k_ucomiss_dword(), b.to_asm_op().as_slice()));
        } else if double {
            self.emit(cat(k_movsd_xmm0_qword(), a.to_asm_op().as_slice()));
            self.emit(cat(k_ucomisd_qword(), b.to_asm_op().as_slice()));
        } else {
            self.emit(cat(k_mov_rax(), a.to_asm_op().as_slice()));
            self.emit(cat(k_compare_rax(), b.to_asm_op().as_slice()));
        }
        self.emit(copy_chars(set));
        self.emit(k_movzx_rax());
        self.emit(cat(cat_num(k_mov_mem_open(), t_offset as i64), k_close_rax().as_slice()));
        self.emit_blank();
    }

    /// An assignment or declaration.
    fn add_variable(&mut self, variable: &Tac) -> (ok: bool)
        ensures
            ok == cg_var(old(self)@, variable@) is Some,
            ok ==> final(self)@ == cg_var(old(self)@, variable@)->0,
    {
        let name = match &variable.result {
            Some(n) => chars_of(n.as_str()),
            None => return false,
        };
        let t_offset = match self.get_or_alloc_slot(name.as_slice()) {
            Some(Slot::Mem(off)) => off,
            _ => return false,
        };
        if variable.arguments.len() == 0 || t_offset == i32::MIN {
            return false;
        }
        let a_arg = chars_of(variable.arguments[0].as_str());
        let a_tok = self.name_token(a_arg.as_slice());
        let single = tac_is_float(variable) || is_single(&a_tok);
        let double = tac_is_double(variable) || is_double(&a_tok);
        let a_slot = match self.get_or_alloc_slot(a_arg.as_slice()) {
            Some(s) => s,
            None => return false,
        };
        self.slot_map.insert(name, -t_offset, a_tok);
        match variable.operator {
            None => {
                if single {
                    self.code_gen_f32_copy(&a_slot, t_offset);
                } else if double {
                    self.code_gen_f64_copy(&a_slot, t_offset);
                } else {
                    self.code_gen_bin_copy(&a_slot, t_offset);
                }
                true
            },
            Some(op) => {
                if variable.arguments.len() < 2 {
                    return false;
                }
                let b_arg = chars_of(variable.arguments[1].as_str());
                let b_slot = match self.get_or_alloc_slot(b_arg.as_slice()) {
                    Some(s) => s,
                    None => return false,
                };
                if op == Operator::LogicalAnd {
                    self.code_gen_logical_op(k_and_w().as_slice(), &a_slot, &b_slot, t_offset);
                } else if op == Operator::LogicalOr {
                    self.code_gen_logical_op(k_or_w().as_slice(), &a_slot, &b_slot, t_offset);
                } else if let Some(set) = set_instr_chars(op, single || double) {
                    self.code_gen_compare(single, double, set.as_slice(), &a_slot, &b_slot, t_offset);
                } else if op == Operator::Division && !single && !double {
                    self.code_gen_div(&a_slot, &b_slot, t_offset);
                } else if single {
                    let asm_op = match op.to_asm_op_f32() {
                        Some(x) => chars_of(x),
                        None => k_addss(),
                    };
                    self.code_gen_f32_bin_op(asm_op.as_slice(), &a_slot, &b_slot, t_offset);
                } else if double {
                    let asm_op = match op.to_asm_op_f64() {
                        Some(x) => chars_of(x),
                        None => k_addsd(),
                    };
                    self.code_gen_f64_bin_op(asm_op.as_slice(), &a_slot, &b_slot, t_offset);
                } else {
                    let asm_op = match op.to_asm_op() {
                        Some(x) => chars_of(x),
                        None => k_qmark(),
                    };
                    self.code_gen_bin_op(asm_op.as_slice(), &a_slot, &b_slot, t_offset);
                }
                true
            },
        }
    }
}


/// The `set` instruction of a comparison operator.
fn set_instr_chars(op: Operator, fp: bool) -> (r: Option<Vec<char>>)
    ensures
        match set_instr(op, fp) {
            Some(x) => r matches Some(v) && v@ == x,
            None => r is None,
        },
{
    match op {
        Operator::LogicalEquals => Some(k_sete_al()),
        Operator::NotEquals => Some(k_setne_al()),
        Operator::LessThan => Some(if fp { k_setb_al() } else { k_setl_al() }),
        Operator::GreaterThan => Some(if fp { k_seta_al() } else { k_setg_al() }),
        Operator::GreaterThanEquals => Some(if fp { k_setae_al() } else { k_setge_al() }),
        Operator::LessThanEquals => Some(if fp { k_setbe_al() } else { k_setle_al() }),
        _ => None,
    }
}

/// Whether a line equal to `s` has been copied in.
fn has_line(v: &Vec<String>, s: &[char]) -> (r: bool)
    ensures
        r == strings_view(v@).contains(s@),
{
    let mut i: usize = 0;
    while i < v.len()
        invariant
            i <= v@.len(),
            forall|j: int| 0 <= j < i ==> (#[trigger] strings_view(v@)[j]) != s@,
        decreases v@.len() - i,
    {
        let line = chars_of(v[i].as_str());
        if chars_eq(line.as_slice(), s) {
            assert(strings_view(v@)[i as int] == s@);
            return true;
        }
        i = i + 1;
    }
    assert forall|j: int| 0 <= j < strings_view(v@).len() implies strings_view(v@)[j] != s@ by {}
    false
}

impl CodeGen {
    fn add_function(&mut self, function: &Tac)
        ensures
            final(self)@ == cg_func(old(self)@, function@),
    {
        let name = arg_chars(function, 0, k_qmark());
        let memory_alloc = arg_chars(function, 1, k_qmark());
        self.current_fn = string_from(name.as_slice());
        self.emit(cat(name, k_colon().as_slice()));
        self.emit(k_push_rbp());
        self.emit(k_mov_rbp_rsp());
        self.emit(cat(k_sub_rsp(), memory_alloc.as_slice()));
        self.emit_blank();
    }

    fn add_param(&mut self, param: &Tac) -> (ok: bool)
        ensures
            ok == cg_param(old(self)@, param@) is Some,
            ok ==> final(self)@ == cg_param(old(self)@, param@)->0,
    {
        let param_name = arg_chars(param, 0, k_qmark());
        let param_type = match &param.value_type {
            Some(t) => t.copy(),
            None => TokenType::Int,
        };
        if self.offset < i32::MIN + 8 {
            return false;
        }
        let offset = self.offset - 8;
        if offset == i32::MIN {
            return false;
        }
        self.offset = offset;
        let single = matches!(param_type, TokenType::Float);
        let double = matches!(param_type, TokenType::Double);
        self.slot_map.insert(param_name, offset, param_type);
        if single {
            if self.param_fp_idx < 8 {
                let line = cat(cat(cat_num(k_movss_dword_open(), -(offset as i64)), k_close_comma().as_slice()),
                    k_fp_reg(self.param_fp_idx).as_slice());
                self.emit(line);
                self.param_fp_idx = self.param_fp_idx + 1;
            }
        } else if double {
            if self.param_fp_idx < 8 {
                let line = cat(cat(cat_num(k_movsd_qword_open(), -(offset as i64)), k_close_comma().as_slice()),
                    k_fp_reg(self.param_fp_idx).as_slice());
                self.emit(line);
                self.param_fp_idx = self.param_fp_idx + 1;
            }
        } else {
            if self.param_int_idx < 6 {
                let line = cat(cat(cat_num(k_mov_mem_open(), -(offset as i64)), k_close_comma().as_slice()),
                    k_arg_reg(self.param_int_idx).as_slice());
                self.emit(line);
                self.param_int_idx = self.param_int_idx + 1;
            }
        }
        true
    }

    fn add_exit_syscall(&mut self)
        ensures
            final(self)@ == exit_main(old(self)@),
    {
        self.emit(k_exit_main());
        self.emit(k_mov_rax_0());
        self.emit(k_mov_rsp_rbp());
        self.emit(k_pop_rbp());
        self.emit(k_ret());
        self.emit_blank();
    }

    fn add_epilogue(&mut self)
        ensures
            final(self)@ == epilogue(old(self)@),
    {
        self.emit(k_mov_rsp_rbp());
        self.emit(k_pop_rbp());
        self.emit(k_ret());
        self.emit_blank();
    }

    /// The end of the current function: `main` returns 0, others return.
    fn add_function_end(&mut self)
        ensures
            final(self)@ == (if old(self)@.current_fn == f_main() { exit_main(old(self)@) } else { epilogue(old(self)@) }),
    {
        let cur = chars_of(self.current_fn.as_str());
        if chars_eq(cur.as_slice(), k_main().as_slice()) {
            self.add_exit_syscall();
        } else {
            self.add_epilogue();
        }
    }

    /// Copies in the code of the built-in called `name` the first time it is called.
    fn add_enbeded_func(&mut self, name: &[char])
        ensures
            final(self)@ == embed_from(old(self)@, name@, 0),
    {
        let funcs = functions();
        let mut i: usize = 0;
        while i < funcs.len()
            invariant
                i <= funcs@.len(),
                funcs@.len() == builtin_count(),
                forall|k: int| 0 <= k < funcs@.len() ==> #[trigger] funcs@[k].name@ == builtin_name(k),
                forall|k: int| 0 <= k < funcs@.len() ==> #[trigger] funcs@[k].function@ == builtin_code(k),
                embed_from(old(self)@, name@, 0) == embed_from(self@, name@, i as nat),
                self@ == old(self)@,
            decreases funcs@.len() - i,
        {
            let fname = chars_of(funcs[i].name);
            if chars_eq(fname.as_slice(), name) && !has_line(&self.enbeded_funcs, name) {
                let code = chars_of(funcs[i].function);
                assert(code@ == builtin_code(i as int));
                let ghost e0 = strings_view(self.enbeded_funcs@);
                let ghost cb = self@;
                let mut current: Vec<char> = Vec::new();
                let mut second = false;
                let mut j: usize = 0;
                assert(code@.skip(0) =~= code@);
                while j < code.len()
                    invariant
                        j <= code@.len(),
                        strings_view(self.enbeded_funcs@) + split_pairs(code@.skip(j as int), current@, second)
                            == e0 + split_pairs(code@, seq![], false),
                        self@ == (CgM { embedded: strings_view(self.enbeded_funcs@), ..cb }),
                    decreases code@.len() - j,
                {
                    let c = code[j];
                    let ghost rest = code@.skip(j as int);
                    assert(rest[0] == c);
                    assert(rest.drop_first() =~= code@.skip(j + 1));
                    let ghost before = strings_view(self.enbeded_funcs@);
                    current.push(c);
                    if c == '\n' {
                        if !second {
                            second = true;
                        } else {
                            push_line(&mut self.enbeded_funcs, current.as_slice());
                            assert(before.push(current@) + split_pairs(code@.skip(j + 1), seq![], false)
                                =~= before + (seq![current@] + split_pairs(code@.skip(j + 1), seq![], false)));
                            current = Vec::new();
                            second = false;
                        }
                    }
                    j = j + 1;
                }
                assert(code@.skip(j as int) =~= seq![]);
                assert(strings_view(self.enbeded_funcs@) =~= e0 + split_pairs(code@, seq![], false));
                return;
            }
            i = i + 1;
        }
    }

    fn add_function_call(&mut self, call: &Tac) -> (ok: bool)
        ensures
            ok == cg_call(old(self)@, call@) is Some,
            ok ==> final(self)@ == cg_call(old(self)@, call@)->0,
    {
        let name = arg_chars(call, 0, k_qmark());
        let n = call.arguments.len();
        let m: usize = if n > 0 { n - 1 } else { 0 };
        let ghost args = if call@.arguments.len() > 0 { call@.arguments.skip(1) } else { seq![] };
        let ghost c0 = self@;
        let mut k: usize = 0;
        let mut int_i: usize = 0;
        let mut fp_i: usize = 0;
        while k < m
            invariant
                n == call.arguments@.len(),
                m == args.len(),
                m == 0 || m == n - 1,
                forall|x: int| 0 <= x < m ==> #[trigger] args[x] == call.arguments@[x + 1]@,
                k <= m,
                int_i <= 6,
                fp_i <= 8,
                call_regs(c0, args, 0, 0, 0) == call_regs(self@, args, k as nat, int_i as nat, fp_i as nat),
                c0 == old(self)@,
                args == (if call@.arguments.len() > 0 { call@.arguments.skip(1) } else { seq![] }),
            decreases m - k,
        {
            let a = chars_of(call.arguments[k + 1].as_str());
            assert(a@ == args[k as int]);
            let ghost cs = self@;
            let slot = match self.get_or_alloc_slot(a.as_slice()) {
                Some(s) => s,
                None => {
                    assert(call_regs(cs, args, k as nat, int_i as nat, fp_i as nat) is None);
                    assert(call_regs(c0, args, 0, 0, 0) is None);
                    return false;
                },
            };
            let tok = self.name_token(a.as_slice());
            if is_single(&tok) {
                if fp_i < 8 {
                    self.emit(cat(cat(cat(k_movss_sp(), k_fp_reg(fp_i).as_slice()), k_comma_dword().as_slice()),
                        slot.to_asm_op().as_slice()));
                    fp_i = fp_i + 1;
                }
            } else if is_double(&tok) {
                if fp_i < 8 {
                    self.emit(cat(cat(cat(k_movsd_sp(), k_fp_reg(fp_i).as_slice()), k_comma_qword().as_slice()),
                        slot.to_asm_op().as_slice()));
                    fp_i = fp_i + 1;
                }
            } else {
                if int_i < 6 {
                    self.emit(cat(cat(cat(k_mov_sp(), k_arg_reg(int_i).as_slice()), k_comma_sp().as_slice()),
                        slot.to_asm_op().as_slice()));
                    int_i = int_i + 1;
                }
            }
            k = k + 1;
        }
        self.emit(cat(k_call_sp(), name.as_slice()));
        self.emit_blank();
        self.add_enbeded_func(name.as_slice());
        true
    }

    fn add_get_return(&mut self, get_return: &Tac) -> (ok: bool)
        ensures
            ok == cg_get_return(old(self)@, get_return@) is Some,
            ok ==> final(self)@ == cg_get_return(old(self)@, get_return@)->0,
    {
        let name = match &get_return.result {
            Some(n) => chars_of(n.as_str()),
            None => return false,
        };
        let t_offset = match self.get_or_alloc_slot(name.as_slice()) {
            Some(Slot::Mem(off)) => off,
            _ => return false,
        };
        if tac_is_float(get_return) {
            self.emit(cat(cat_num(k_movss_dword_open(), t_offset as i64), k_close_xmm0().as_slice()));
        } else if tac_is_double(get_return) {
            self.emit(cat(cat_num(k_movsd_qword_open(), t_offset as i64), k_close_xmm0().as_slice()));
        } else {
            self.emit(cat(cat_num(k_mov_mem_open(), t_offset as i64), k_close_rax().as_slice()));
        }
        true
    }

    fn add_return(&mut self, tac: &Tac) -> (ok: bool)
        ensures
            ok == cg_return(old(self)@, tac@) is Some,
            ok ==> final(self)@ == cg_return(old(self)@, tac@)->0,
    {
        let single = tac_is_float(tac);
        let double = tac_is_double(tac);
        match &tac.result {
            Some(value) => {
                if !self.add_variable(tac) {
                    return false;
                }
                let v = chars_of(value.as_str());
                let slot = match self.get_or_alloc_slot(v.as_slice()) {
                    Some(s) => s,
                    None => return false,
                };
                if single {
                    self.emit(cat(k_movss_xmm0_dword(), slot.to_asm_op().as_slice()));
                } else if double {
                    self.emit(cat(k_movsd_xmm0_qword(), slot.to_asm_op().as_slice()));
                } else {
                    self.emit(cat(k_mov_rax(), slot.to_asm_op().as_slice()));
                }
                self.emit_blank();
            },
            None => {},
        }
        self.add_function_end();
        true
    }
}


impl CodeGen {
    /// The jump to `label` taken when the condition of `tac` is false.
    fn emit_condition_jump(&mut self, label: &[char], tac: &Tac) -> (ok: bool)
        ensures
            ok == cond_jump(old(self)@, label@, tac@) is Some,
            ok ==> final(self)@ == cond_jump(old(self)@, label@, tac@)->0,
    {
        let ghost c0 = self@;
        let ghost rest = if tac@.arguments.len() > 0 { tac@.arguments.skip(1) } else { seq![] };
        let n = tac.arguments.len();
        let rest_len: usize = if n > 0 { n - 1 } else { 0 };
        assert(rest.len() == rest_len);
        if tac.operator.is_some() && rest_len == 2 {
            let op = tac.operator.unwrap();
            let left = chars_of(tac.arguments[1].as_str());
            let right = chars_of(tac.arguments[2].as_str());
            assert(left@ == rest[0] && right@ == rest[1]);
            let a_slot = match self.get_or_alloc_slot(left.as_slice()) {
                Some(s) => s,
                None => return false,
            };
            let ghost c1 = self@;
            let b_slot = match self.get_or_alloc_slot(right.as_slice()) {
                Some(s) => s,
                None => {
                    assert(alloc_slot(c1, right@) is None);
                    return false;
                },
            };
            let a_tok = self.name_token(left.as_slice());
            let b_tok = self.name_token(right.as_slice());
            if is_single(&a_tok) || is_single(&b_tok) {
                self.emit(cat(k_movss_xmm0_dword(), a_slot.to_asm_op().as_slice()));
                self.emit(cat(k_ucomiss_dword(), b_slot.to_asm_op().as_slice()));
            } else if is_double(&a_tok) || is_double(&b_tok) {
                self.emit(cat(k_movsd_xmm0_qword(), a_slot.to_asm_op().as_slice()));
                self.emit(cat(k_ucomisd_qword(), b_slot.to_asm_op().as_slice()));
            } else {
                self.emit(cat(k_mov_rax(), a_slot.to_asm_op().as_slice()));
                self.emit(cat(k_compare_rax(), b_slot.to_asm_op().as_slice()));
            }
            if op != Operator::LogicalEquals {
                return false;
            }
            self.emit(cat(cat(cat(k_sp4(), k_jne().as_slice()), k_space().as_slice()), label));
        } else if rest_len == 1 {
            let value = chars_of(tac.arguments[1].as_str());
            assert(value@ == rest[0]);
            let slot = match self.get_or_alloc_slot(value.as_slice()) {
                Some(s) => s,
                None => return false,
            };
            let tok = self.name_token(value.as_slice());
            if is_single(&tok) {
                self.emit(cat(k_movss_xmm0_dword(), slot.to_asm_op().as_slice()));
                self.emit(k_xorps());
                self.emit(k_ucomiss_x());
                self.emit(cat(k_je_sp(), label));
            } else if is_double(&tok) {
                self.emit(cat(k_movsd_xmm0_qword(), slot.to_asm_op().as_slice()));
                self.emit(k_xorpd());
                self.emit(k_ucomisd_x());
                self.emit(cat(k_je_sp(), label));
            } else {
                self.emit(cat(k_mov_rax(), slot.to_asm_op().as_slice()));
                self.emit(k_test_rax());
                self.emit(cat(k_je_sp(), label));
            }
        } else {
            return false;
        }
        self.emit_blank();
        true
    }

    fn emit_label(&mut self, label: &[char])
        ensures
            final(self)@ == put(old(self)@, f_sp4() + label@ + f_colon()),
    {
        self.emit(cat(cat(k_sp4(), label), k_colon().as_slice()));
    }

    /// The code of one instruction.
    fn step(&mut self, tac: &Tac) -> (ok: bool)
        ensures
            ok == cg_step(old(self)@, tac@) is Some,
            ok ==> final(self)@ == cg_step(old(self)@, tac@)->0,
    {
        match tac.tac_type {
            Type::Variable | Type::Reasingment => self.add_variable(tac),
            Type::Function => {
                self.slot_map = SlotMap::new();
                self.offset = 0;
                self.param_int_idx = 0;
                self.param_fp_idx = 0;
                self.add_function(tac);
                true
            },
            Type::Param => self.add_param(tac),
            Type::Call => self.add_function_call(tac),
            Type::Conditional | Type::Loop => {
                if tac.arguments.len() == 0 {
                    return false;
                }
                let label = chars_of(tac.arguments[0].as_str());
                self.emit_condition_jump(label.as_slice(), tac)
            },
            Type::ConditionalEnd => {
                let label = arg_chars(tac, 0, k_qmark());
                self.emit_label(label.as_slice());
                self.emit_blank();
                true
            },
            Type::LoopEnd => {
                let label = arg_chars(tac, 0, k_qmark());
                self.emit(cat(cat(k_jmp_sp(), label.as_slice()), k_loop_suffix().as_slice()));
                self.emit_blank();
                self.emit_label(label.as_slice());
                self.emit_blank();
                true
            },
            Type::Label => {
                if tac.arguments.len() == 0 {
                    return false;
                }
                let label = chars_of(tac.arguments[0].as_str());
                self.emit_label(label.as_slice());
                true
            },
            Type::GetReturn => self.add_get_return(tac),
            Type::Return => self.add_return(tac),
            _ => true,
        }
    }

    fn run(&mut self, tac_table: &Vec<Tac>) -> (ok: bool)
        ensures
            ok == cg_generate(old(self)@, tacs_view(tac_table@)) is Some,
            ok ==> final(self)@ == cg_generate(old(self)@, tacs_view(tac_table@))->0,
    {
        let ghost c0 = self@;
        let ghost ts = tacs_view(tac_table@);
        let mut i: usize = 0;
        assert(ts.skip(0) =~= ts);
        while i < tac_table.len()
            invariant
                i <= tac_table@.len(),
                ts == tacs_view(tac_table@),
                c0 == old(self)@,
                cg_run(c0, ts) == cg_run(self@, ts.skip(i as int)),
            decreases tac_table@.len() - i,
        {
            let ghost cs = self@;
            assert(ts.skip(i as int)[0] == tac_table@[i as int]@);
            assert(ts.skip(i as int).drop_first() =~= ts.skip(i + 1));
            if !self.step(&tac_table[i]) {
                assert(cg_run(cs, ts.skip(i as int)) is None);
                return false;
            }
            i = i + 1;
        }
        assert(ts.skip(i as int) =~= seq![]);
        if self.current_fn.as_str().is_empty() {
            return true;
        }
        assert(self@.current_fn.len() > 0);
        self.add_function_end();
        true
    }

    /// The code of every instruction of `tac_table`, and the end of the last function.
    pub fn generate(&mut self, tac_table: Vec<Tac>)
        requires
            cg_generate(old(self)@, tacs_view(tac_table@)) is Some,
        ensures
            final(self)@ == cg_generate(old(self)@, tacs_view(tac_table@))->0,
    {
        let ok = self.run(&tac_table);
        assert(ok);
    }

    /// The code of every instruction of `tac_table`; false, with the generator
    /// in an unspecified state, where the code has no lowering.
    pub fn try_generate(&mut self, tac_table: &Vec<Tac>) -> (ok: bool)
        ensures
            ok == cg_generate(old(self)@, tacs_view(tac_table@)) is Some,
            ok ==> final(self)@ == cg_generate(old(self)@, tacs_view(tac_table@))->0,
    {
        self.run(tac_table)
    }
}

/// The fixed head of the file: format strings for the print built-ins.
pub open spec fn asm_header() -> Seq<Seq<char>> {
    seq![f_bits(), seq![], f_sec_data(), f_fmt_int(), f_fmt_float(), f_fmt_bool(), f_fmt_char(),
        f_fmt_string(), f_str_true(), f_str_false(), seq![]]
}

/// The start of the text section.
pub open spec fn text_header() -> Seq<Seq<char>> {
    seq![f_sec_text(), f_extern_printf(), f_global_main(), seq![]]
}

/// The assembly file of a finished generator: the header, the read-only
/// data section where there are float constants, then the text section with
/// the built-ins before the program's own code.
pub open spec fn assembly(c: CgM) -> Seq<Seq<char>> {
    asm_header() + (if c.rodata.len() == 0 {
        seq![]
    } else {
        seq![f_sec_rodata()] + c.rodata + seq![seq![]]
    }) + text_header() + c.embedded + c.file
}

/// The assembly of a program's three-address code, where it has one.
pub open spec fn assembly_of(tacs: Seq<TacM>) -> Option<Seq<Seq<char>>> {
    match cg_generate(cg_start(), tacs) {
        None => None,
        Some(c) => Some(assembly(c)),
    }
}

fn push_lines(out: &mut Vec<String>, lines: Vec<String>)
    ensures
        strings_view(final(out)@) == strings_view(old(out)@) + strings_view(lines@),
{
    let ghost before = strings_view(out@);
    let ghost added = lines@;
    let mut lines = lines;
    out.append(&mut lines);
    assert(strings_view(out@) =~= before + strings_view(added));
}

fn assemble(code_gen: CodeGen) -> (r: Vec<String>)
    ensures
        strings_view(r@) == assembly(code_gen@),
{
    let mut out: Vec<String> = Vec::new();
    let blank: Vec<char> = Vec::new();
    push_line(&mut out, k_bits().as_slice());
    push_line(&mut out, blank.as_slice());
    push_line(&mut out, k_sec_data().as_slice());
    push_line(&mut out, k_fmt_int().as_slice());
    push_line(&mut out, k_fmt_float().as_slice());
    push_line(&mut out, k_fmt_bool().as_slice());
    push_line(&mut out, k_fmt_char().as_slice());
    push_line(&mut out, k_fmt_string().as_slice());
    push_line(&mut out, k_str_true().as_slice());
    push_line(&mut out, k_str_false().as_slice());
    push_line(&mut out, blank.as_slice());
    assert(blank@ =~= seq![]);
    assert(strings_view(out@) =~= asm_header());
    let ghost c = code_gen@;
    let CodeGen { file, rodata, enbeded_funcs, .. } = code_gen;
    if rodata.len() > 0 {
        push_line(&mut out, k_sec_rodata().as_slice());
        push_lines(&mut out, rodata);
        push_line(&mut out, blank.as_slice());
    }
    let ghost mid = strings_view(out@);
    assert(mid =~= asm_header() + (if c.rodata.len() == 0 {
        seq![]
    } else {
        seq![f_sec_rodata()] + c.rodata + seq![seq![]]
    }));
    push_line(&mut out, k_sec_text().as_slice());
    push_line(&mut out, k_extern_printf().as_slice());
    push_line(&mut out, k_global_main().as_slice());
    push_line(&mut out, blank.as_slice());
    assert(strings_view(out@) =~= mid + text_header());
    push_lines(&mut out, enbeded_funcs);
    push_lines(&mut out, file);
    assert(strings_view(out@) =~= assembly(c));
    out
}

/// The assembly file of a program's three-address code.
pub fn generate_assembly(tac_table: Vec<Tac>) -> (r: Vec<String>)
    requires
        assembly_of(tacs_view(tac_table@)) is Some,
    ensures
        strings_view(r@) == assembly_of(tacs_view(tac_table@))->0,
{
    let mut code_gen = CodeGen::new();
    code_gen.generate(tac_table);
    assemble(code_gen)
}

/// The assembly file of a program's three-address code, or nothing where
/// some instruction has no lowering (a missing operand, an unsupported
/// comparison, or a stack offset or counter out of range).
pub fn try_generate_assembly(tac_table: &Vec<Tac>) -> (r: Option<Vec<String>>)
    ensures
        match assembly_of(tacs_view(tac_table@)) {
            None => r is None,
            Some(a) => r is Some && strings_view(r->0@) == a,
        },
{
    let mut code_gen = CodeGen::new();
    if code_gen.try_generate(tac_table) {
        Some(assemble(code_gen))
    } else {
        None
    }
}

} // verus!
