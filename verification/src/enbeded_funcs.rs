//! The functions built into Monkey C: their names, parameter types and
//! x86-64 assembly, which the code generator copies into programs that call them.
use vstd::prelude::*;
use crate::token::{token_of, is_type_token};

verus! {

/// A built-in function: the name a program calls, the types it takes, and
/// its assembly, which starts with a label of that name and ends in `ret`.
pub struct PubFuncs {
    pub name: &'static str,
    pub parameters: &'static [&'static str],
    pub function: &'static str,
}

/// How many functions are built in.
pub open spec fn builtin_count() -> nat {
    5
}

/// The name of built-in function `i`.
pub open spec fn builtin_name(i: int) -> Seq<char> {
    if i == 0 {
        seq!['p', 'r', 'i', 'n', 't', '_', 'i', 'n', 't']
    } else if i == 1 {
        seq!['p', 'r', 'i', 'n', 't', '_', 'f', 'l', 'o', 'a', 't']
    } else if i == 2 {
        seq!['p', 'r', 'i', 'n', 't', '_', 'b', 'o', 'o', 'l']
    } else if i == 3 {
        seq!['p', 'r', 'i', 'n', 't', '_', 's', 't', 'r', 'i', 'n', 'g']
    } else if i == 4 {
        seq!['p', 'r', 'i', 'n', 't', '_', 'c', 'h', 'a', 'r']
    } else {
        seq![]
    }
}

/// The parameter type of built-in function `i` (each takes exactly one).
pub open spec fn builtin_param(i: int) -> Seq<char> {
    if i == 0 {
        seq!['i', 'n', 't']
    } else if i == 1 {
        seq!['f', 'l', 'o', 'a', 't']
    } else if i == 2 {
        seq!['b', 'o', 'o', 'l']
    } else if i == 3 {
        seq!['s', 't', 'r']
    } else if i == 4 {
        seq!['c', 'h', 'a', 'r']
    } else {
        seq![]
    }
}

/// The assembly of built-in function `i`.
pub open spec fn builtin_code(i: int) -> Seq<char> {
    if i == 0 {
        "print_int:
    push rbp
    mov rbp, rsp
    mov esi, edi
    lea rdi, [rel fmt_int]
    xor eax, eax
    call printf
    pop rbp
    ret\n
    "@
    } else if i == 1 {
        "print_float:
    push rbp
    mov rbp, rsp
    cvtss2sd xmm0, xmm0
    lea rdi, [rel fmt_float]
    mov eax, 1
    call printf
    pop rbp
    ret\n
    "@
    } else if i == 2 {
        "print_bool:
    push rbp
    mov rbp, rsp
    lea rsi, [rel str_true]
    lea rax, [rel str_false]
    test edi, edi
    cmovz rsi, rax
    lea rdi, [rel fmt_bool]
    xor eax, eax
    call printf
    pop rbp
    ret\n
    "@
    } else if i == 3 {
        "print_string:
    push rbp
    mov rbp, rsp
    mov rsi, rdi
    lea rdi, [rel fmt_string]
    xor eax, eax
    call printf
    pop rbp
    ret\n
    "@
    } else if i == 4 {
        "print_char:
    push rbp
    mov rbp, rsp
    mov esi, edi
    lea rdi, [rel fmt_char]
    xor eax, eax
    call printf
    pop rbp
    ret\n
    "@
    } else {
        seq![]
    }
}

/// The table of built-in functions is well formed: no two share a name, each
/// takes one parameter whose type is a type keyword of the language, and the
/// assembly of each starts with a label that is its name and ends with `ret`
/// followed only by blank space.
pub proof fn lemma_builtins_well_formed()
    ensures
        forall|i: int, j: int|
            0 <= i < builtin_count() && 0 <= j < builtin_count() && i != j
                ==> #[trigger] builtin_name(i) != #[trigger] builtin_name(j),
        forall|i: int|
            0 <= i < builtin_count() ==> is_type_token(token_of(#[trigger] builtin_param(i))),
        forall|i: int|
            0 <= i < builtin_count() ==> {
                let n = #[trigger] builtin_name(i);
                let c = builtin_code(i);
                &&& n.len() > 0
                &&& c.len() > n.len()
                &&& c.take(n.len() as int) == n
                &&& c[n.len() as int] == ':'
                &&& c.len() >= 9
                &&& c.subrange(c.len() - 9, c.len() as int) == seq!['r', 'e', 't', '\n', '\n', ' ', ' ', ' ', ' ']
            },
{
    reveal_strlit("print_int:
    push rbp
    mov rbp, rsp
    mov esi, edi
    lea rdi, [rel fmt_int]
    xor eax, eax
    call printf
    pop rbp
    ret\n
    ");
    reveal_strlit("print_float:
    push rbp
    mov rbp, rsp
    cvtss2sd xmm0, xmm0
    lea rdi, [rel fmt_float]
    mov eax, 1
    call printf
    pop rbp
    ret\n
    ");
    reveal_strlit("print_bool:
    push rbp
    mov rbp, rsp
    lea rsi, [rel str_true]
    lea rax, [rel str_false]
    test edi, edi
    cmovz rsi, rax
    lea rdi, [rel fmt_bool]
    xor eax, eax
    call printf
    pop rbp
    ret\n
    ");
    reveal_strlit("print_string:
    push rbp
    mov rbp, rsp
    mov rsi, rdi
    lea rdi, [rel fmt_string]
    xor eax, eax
    call printf
    pop rbp
    ret\n
    ");
    reveal_strlit("print_char:
    push rbp
    mov rbp, rsp
    mov esi, edi
    lea rdi, [rel fmt_char]
    xor eax, eax
    call printf
    pop rbp
    ret\n
    ");
    assert forall|i: int, j: int|
        0 <= i < builtin_count() && 0 <= j < builtin_count() && i != j
            implies #[trigger] builtin_name(i) != #[trigger] builtin_name(j) by {
        let a = builtin_name(i);
        let b = builtin_name(j);
        if a.len() == b.len() {
            assert(a[6] != b[6]);
        }
    }
    assert forall|i: int|
        0 <= i < builtin_count() implies is_type_token(token_of(#[trigger] builtin_param(i))) by {
        let p = builtin_param(i);
        if i == 0 {
            assert(p =~= seq!['i', 'n', 't']);
        } else if i == 1 {
            assert(p =~= seq!['f', 'l', 'o', 'a', 't']);
        } else if i == 2 {
            assert(p =~= seq!['b', 'o', 'o', 'l']);
        } else if i == 3 {
            assert(p =~= seq!['s', 't', 'r']);
        } else {
            assert(p =~= seq!['c', 'h', 'a', 'r']);
        }
    }
    assert forall|i: int| 0 <= i < builtin_count() implies {
        let n = #[trigger] builtin_name(i);
        let c = builtin_code(i);
        &&& n.len() > 0
        &&& c.len() > n.len()
        &&& c.take(n.len() as int) == n
        &&& c[n.len() as int] == ':'
        &&& c.len() >= 9
        &&& c.subrange(c.len() - 9, c.len() as int) == seq!['r', 'e', 't', '\n', '\n', ' ', ' ', ' ', ' ']
    } by {
        let n = builtin_name(i);
        let c = builtin_code(i);
        assert(c.take(n.len() as int) =~= n);
        assert(c.subrange(c.len() - 9, c.len() as int) =~= seq!['r', 'e', 't', '\n', '\n', ' ', ' ', ' ', ' ']);
    }
}

/// The built-in functions, in a fixed order.
pub fn functions() -> (r: Vec<PubFuncs>)
    ensures
        r@.len() == builtin_count(),
        forall|i: int| 0 <= i < r@.len() ==> #[trigger] r@[i].name@ == builtin_name(i),
        forall|i: int| 0 <= i < r@.len() ==> #[trigger] r@[i].parameters@.len() == 1,
        forall|i: int| 0 <= i < r@.len() ==> #[trigger] r@[i].parameters@[0]@ == builtin_param(i),
        forall|i: int| 0 <= i < r@.len() ==> #[trigger] r@[i].function@ == builtin_code(i),
{
    let p0: &'static [&'static str] = &["int"];
    let p1: &'static [&'static str] = &["float"];
    let p2: &'static [&'static str] = &["bool"];
    let p3: &'static [&'static str] = &["str"];
    let p4: &'static [&'static str] = &["char"];
    proof {
        reveal_strlit("print_int");
        reveal_strlit("int");
        reveal_strlit("print_float");
        reveal_strlit("float");
        reveal_strlit("print_bool");
        reveal_strlit("bool");
        reveal_strlit("print_string");
        reveal_strlit("str");
        reveal_strlit("print_char");
        reveal_strlit("char");
    }
    assert(p0@.len() == 1 && p0@[0]@ == seq!['i', 'n', 't']);
    assert(p1@.len() == 1 && p1@[0]@ == seq!['f', 'l', 'o', 'a', 't']);
    assert(p2@.len() == 1 && p2@[0]@ == seq!['b', 'o', 'o', 'l']);
    assert(p3@.len() == 1 && p3@[0]@ == seq!['s', 't', 'r']);
    assert(p4@.len() == 1 && p4@[0]@ == seq!['c', 'h', 'a', 'r']);
    let mut r: Vec<PubFuncs> = Vec::new();
    r.push(PubFuncs { name: "print_int", parameters: p0, function: "print_int:
    push rbp
    mov rbp, rsp
    mov esi, edi
    lea rdi, [rel fmt_int]
    xor eax, eax
    call printf
    pop rbp
    ret\n
    " });
    r.push(PubFuncs { name: "print_float", parameters: p1, function: "print_float:
    push rbp
    mov rbp, rsp
    cvtss2sd xmm0, xmm0
    lea rdi, [rel fmt_float]
    mov eax, 1
    call printf
    pop rbp
    ret\n
    " });
    r.push(PubFuncs { name: "print_bool", parameters: p2, function: "print_bool:
    push rbp
    mov rbp, rsp
    lea rsi, [rel str_true]
    lea rax, [rel str_false]
    test edi, edi
    cmovz rsi, rax
    lea rdi, [rel fmt_bool]
    xor eax, eax
    call printf
    pop rbp
    ret\n
    " });
    r.push(PubFuncs { name: "print_string", parameters: p3, function: "print_string:
    push rbp
    mov rbp, rsp
    mov rsi, rdi
    lea rdi, [rel fmt_string]
    xor eax, eax
    call printf
    pop rbp
    ret\n
    " });
    r.push(PubFuncs { name: "print_char", parameters: p4, function: "print_char:
    push rbp
    mov rbp, rsp
    mov esi, edi
    lea rdi, [rel fmt_char]
    xor eax, eax
    call printf
    pop rbp
    ret\n
    " });
    r
}

} // verus!
