use monkey_c::code_generator::{CodeGen, Slot};

fn mem(s: Option<Slot>) -> i32 {
    match s {
        Some(Slot::Mem(k)) => k,
        _ => panic!("a stack slot"),
    }
}

#[test]
fn names_get_their_slot_again_and_new_names_go_lower() {
    let mut cg = CodeGen::new();
    let x: Vec<char> = "x".chars().collect();
    let y: Vec<char> = "y".chars().collect();
    let first = mem(cg.get_or_alloc_slot(&x));
    let second = mem(cg.get_or_alloc_slot(&y));
    let again = mem(cg.get_or_alloc_slot(&x));
    assert_eq!(first, 8);
    assert_eq!(second, 16);
    assert_eq!(again, 8);
}

#[test]
fn an_integer_literal_is_an_immediate() {
    let mut cg = CodeGen::new();
    let five: Vec<char> = "5".chars().collect();
    match cg.get_or_alloc_slot(&five) {
        Some(Slot::Const(s)) => assert_eq!(s, "5"),
        _ => panic!("an immediate"),
    }
}
