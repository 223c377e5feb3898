use monkey_c::parser::{try_parse_lines, parse_lines, Block};
use monkey_c::semantic_analyzer::{try_analyze_semantically, analyze_semantically, format_table, error_report, word_span_at, Error};
use monkey_c::three_address_code_gen::{try_generate_three_address_code, generate_three_address_code, format_tac_table};
use monkey_c::code_generator::{try_generate_assembly, generate_assembly};

fn source(text: &str) -> Vec<String> {
    text.lines().map(|l| l.to_string()).collect()
}

const COUNTING_PROGRAM: &str = "fn main() {
    int count = 0;
    while (count < 5) {
        print_int(count);
        count++;
    }
}";

fn words_of(b: &Block, out: &mut Vec<String>) {
    match b {
        Block::Word(w) => out.push(w.word.clone()),
        Block::Line(ws) => {
            for w in ws {
                out.push(w.word.clone());
            }
        }
        Block::Multiple(ls) => {
            for l in ls {
                for w in l {
                    out.push(w.word.clone());
                }
            }
        }
        Block::Collection(bs) | Block::Parameter(bs) => {
            for b in bs {
                words_of(b, out);
            }
        }
    }
}

#[test]
fn parses_empty_source() {
    let lines: Vec<String> = Vec::new();
    match try_parse_lines(&lines) {
        Some(Ok(blocks)) => assert!(blocks.is_empty()),
        _ => panic!("expected an empty parse"),
    }
}

#[test]
fn parses_statements_into_lines_of_words() {
    let lines = source("{\nint x = 5;\nint y = x;\n}");
    let blocks = parse_lines(&lines).expect("parses");
    assert_eq!(blocks.len(), 1);
    match &blocks[0] {
        Block::Collection(inner) => {
            assert_eq!(inner.len(), 1);
            match &inner[0] {
                Block::Multiple(ls) => {
                    assert_eq!(ls.len(), 2);
                    let first: Vec<&str> = ls[0].iter().map(|w| w.word.as_str()).collect();
                    assert_eq!(first, vec!["int", "x", "=", "5"]);
                    assert_eq!(ls[1][1].line, Some(3));
                    assert_eq!(ls[1][1].char_num, Some(5));
                }
                _ => panic!("expected statements"),
            }
        }
        _ => panic!("expected a block"),
    }
}

#[test]
fn comments_are_skipped() {
    let lines = source("{\nint x = 5; // the answer\n}");
    let blocks = parse_lines(&lines).expect("parses");
    let mut words = Vec::new();
    words_of(&blocks[0], &mut words);
    assert_eq!(words, vec!["int", "x", "=", "5"]);
}

#[test]
fn unfinished_line_before_a_block_is_an_error() {
    let lines = source("int x{\n}");
    match try_parse_lines(&lines) {
        Some(Err(msg)) => assert_eq!(msg, "You haven't finished the line. Line: 1; Char: 6".to_string()),
        _ => panic!("expected the unfinished-line error"),
    }
}

#[test]
fn statements_after_the_last_block_are_refused() {
    let lines = source("int x = 5");
    assert!(try_parse_lines(&lines).is_none());
}

#[test]
fn counting_loop_compiles() {
    let lines = source(COUNTING_PROGRAM);
    let blocks = match try_parse_lines(&lines) {
        Some(Ok(b)) => b,
        _ => panic!("the program parses"),
    };
    let mut words = Vec::new();
    for b in &blocks {
        words_of(b, &mut words);
    }
    assert_eq!(words[0], "fn");
    assert_eq!(words[1], "main");
    let table = match try_analyze_semantically(&blocks) {
        Some(Ok(t)) => t,
        _ => panic!("the program has no errors"),
    };
    let listing = format_table(&table);
    assert!(listing.contains("while count < 5 {"));
    let tac = try_generate_three_address_code(&table).expect("lowers to three-address code");
    let tac_lines = format_tac_table(&tac);
    assert_eq!(
        tac_lines,
        vec![
            "function main",
            "    count = 0",
            "    L0_loop:",
            "    _t0 = count < 5",
            "     while (_t0)",
            "        call print_int(count)",
            "        count = count + 1",
            "    L0: end while",
        ]
    );
    let lines_out = try_generate_assembly(&tac).expect("lowers to assembly");
    assert!(lines_out.iter().any(|l| l.trim() == "main:"));
    assert_eq!(lines_out.iter().filter(|l| l.starts_with("print_int:")).count(), 1);
    assert!(lines_out.iter().any(|l| l.trim() == "call print_int"));
    assert!(lines_out.iter().any(|l| l.trim() == "L0_loop:"));
    let trimmed: Vec<&str> = lines_out.iter().map(|l| l.trim()).collect();
    let at = trimmed.iter().position(|l| *l == "cmp rax, 5").expect("the comparison");
    assert_eq!(&trimmed[at - 1..at + 4], &["mov rax, [rbp - 8]", "cmp rax, 5", "setl al", "movzx rax, al", "mov [rbp - 16], rax"]);
    assert!(!trimmed.iter().any(|l| l.starts_with("? ")));
}

#[test]
fn function_calls_pass_arguments_in_registers() {
    let lines = source("fn add(int a, int b) -> int {\n    return a + b;\n}\nfn main() {\n    int s = add(1, 2);\n    print_int(s);\n}");
    let blocks = match try_parse_lines(&lines) {
        Some(Ok(b)) => b,
        _ => panic!("parses"),
    };
    let table = match try_analyze_semantically(&blocks) {
        Some(Ok(t)) => t,
        _ => panic!("no errors"),
    };
    let tac = try_generate_three_address_code(&table).expect("three-address code");
    assert_eq!(
        format_tac_table(&tac),
        vec![
            "function add",
            "    param int a",
            "    param int b",
            "    _t0 = a + b",
            "function main",
            "    call add(1, 2)",
            "    get return value",
            "    s = _t1",
            "    call print_int(s)",
        ]
    );
    let out = try_generate_assembly(&tac).expect("assembly");
    let trimmed: Vec<&str> = out.iter().map(|l| l.trim()).collect();
    let at = trimmed.iter().position(|l| *l == "add:").expect("add is emitted");
    assert_eq!(&trimmed[at..at + 6], &["add:", "push rbp", "mov rbp, rsp", "sub rsp, 32", "", "mov [rbp - 8], rdi"]);
    assert!(trimmed.contains(&"mov [rbp - 16], rsi"));
    assert!(trimmed.contains(&"mov [rbp - 24], rax"));
    assert!(trimmed.contains(&"mov rsi, 2"));
    assert!(trimmed.contains(&"call add"));
    assert!(trimmed.contains(&"; exit main"));
}

#[test]
fn too_many_arguments_are_reported() {
    let lines = source("fn main() {\n    print_int(1, 2);\n}");
    let blocks = match try_parse_lines(&lines) {
        Some(Ok(b)) => b,
        _ => panic!("parses"),
    };
    match try_analyze_semantically(&blocks) {
        Some(Err(errors)) => {
            assert_eq!(errors.len(), 1);
            assert_eq!(errors[0].msg, "Too many arguments for function call. Expected: 1, Found: 2".to_string());
            assert_eq!((errors[0].line, errors[0].char), (2, 18));
        }
        _ => panic!("expected an error"),
    }
}

#[test]
fn undefined_symbol_is_reported() {
    let lines = source("fn main() {\n    int x = 1;\n    x = y;\n}");
    let blocks = match try_parse_lines(&lines) {
        Some(Ok(b)) => b,
        _ => panic!("parses"),
    };
    match try_analyze_semantically(&blocks) {
        Some(Err(errors)) => {
            assert_eq!(errors.len(), 1);
            assert_eq!(errors[0].msg, "Undefined symbol: y".to_string());
            assert_eq!(errors[0].line, 3);
            assert_eq!(errors[0].char, 9);
        }
        _ => panic!("expected an error"),
    }
}

#[test]
fn word_spans() {
    assert_eq!(word_span_at("int count = 0;", 6), (5, 5));
    assert_eq!(word_span_at("int count = 0;", 1), (1, 3));
    assert_eq!(word_span_at("a + b_c", 5), (5, 3));
    assert_eq!(word_span_at("", 4), (4, 1));
}

#[test]
fn error_reports_show_the_line_and_a_squiggle() {
    let code = source("fn main() {\n    int x = y;\n}");
    let e = Error { msg: "Undefined symbol: y".to_string(), line: 2, char: 13 };
    let report = error_report(&code, "test.MC", &e).expect("a report");
    assert_eq!(report[0], "\n[Error]: Undefined symbol: y".to_string());
    assert_eq!(report[1], "--> test.MC line:2, char pos :13".to_string());
    assert!(report.iter().any(|l| l.ends_with("|     int x = y;")));
    assert!(report.iter().any(|l| l.trim() == "~"));
    let none = Error { msg: "x".to_string(), line: 0, char: 0 };
    assert!(error_report(&code, "test.MC", &none).is_none());
}

fn errors_of(text: &str) -> Vec<(String, usize, usize)> {
    let lines = source(text);
    let blocks = match try_parse_lines(&lines) {
        Some(Ok(b)) => b,
        _ => panic!("parses"),
    };
    match try_analyze_semantically(&blocks) {
        Some(Err(errors)) => errors.into_iter().map(|e| (e.msg, e.line, e.char)).collect(),
        Some(Ok(_)) => Vec::new(),
        None => panic!("the analysis stopped"),
    }
}

#[test]
fn assigning_an_undeclared_name_is_reported() {
    assert_eq!(
        errors_of("fn main() {\n    z = 1;\n}"),
        vec![
            ("Undefined symbol: z".to_string(), 2, 5),
            ("There wasn't a last entry".to_string(), 2, 9),
        ]
    );
}

#[test]
fn argument_types_are_checked() {
    assert_eq!(
        errors_of("fn f(int a) {\n}\nfn main() {\n    f(true);\n}"),
        vec![("Type mismatch for argument 1 of function call: expected Int, got Bool".to_string(), 4, 7)]
    );
    assert!(errors_of("fn f(int a, char c) {\n}\nfn main() {\n    int k = 3;\n    f(k, 'c');\n}").is_empty());
}

#[test]
fn checked_and_unchecked_stages_agree() {
    let lines = source(COUNTING_PROGRAM);
    let blocks = parse_lines(&lines).expect("parses");
    let table = match analyze_semantically(blocks) {
        Ok(t) => t,
        Err(_) => panic!("no errors"),
    };
    let listing = format_table(&table);
    let tac = generate_three_address_code(table);
    let tac_lines = format_tac_table(&tac);
    let out = generate_assembly(tac);

    let blocks2 = match try_parse_lines(&lines) {
        Some(Ok(b)) => b,
        _ => panic!("parses"),
    };
    let table2 = match try_analyze_semantically(&blocks2) {
        Some(Ok(t)) => t,
        _ => panic!("no errors"),
    };
    assert_eq!(format_table(&table2), listing);
    let tac2 = try_generate_three_address_code(&table2).expect("three-address code");
    assert_eq!(format_tac_table(&tac2), tac_lines);
    assert_eq!(try_generate_assembly(&tac2).expect("assembly"), out);
}

#[test]
fn word_spans_take_unicode_letters() {
    assert_eq!(word_span_at("ab é1", 4), (4, 2));
    assert_eq!(word_span_at("x = ñandú;", 6), (5, 5));
}

#[test]
fn a_single_slash_is_a_word_of_its_own() {
    let lines = source("{\nint x = a/b;\n}");
    let blocks = parse_lines(&lines).expect("parses");
    let mut words = Vec::new();
    words_of(&blocks[0], &mut words);
    assert_eq!(words, vec!["int", "x", "=", "a", "/", "b"]);
    let lines = source("fn main() {\n    int y = a / b; // the quotient\n}");
    let blocks = parse_lines(&lines).expect("parses");
    let mut found = None;
    for b in &blocks {
        if let Block::Collection(inner) = b {
            if let Block::Multiple(ls) = &inner[0] {
                let ws: Vec<&str> = ls[0].iter().map(|w| w.word.as_str()).collect();
                assert_eq!(ws, vec!["int", "y", "=", "a", "/", "b"]);
                found = Some((ls[0][4].line, ls[0][4].char_num));
            }
        }
    }
    assert_eq!(found, Some((Some(2), Some(15))));
}

#[test]
fn integer_division_divides() {
    let lines = source("fn main() {\n    int a = 7;\n    int b = 2;\n    int q = a / b;\n    print_int(q);\n}");
    let blocks = match try_parse_lines(&lines) {
        Some(Ok(b)) => b,
        _ => panic!("parses"),
    };
    let table = match try_analyze_semantically(&blocks) {
        Some(Ok(t)) => t,
        _ => panic!("no errors"),
    };
    let tac = try_generate_three_address_code(&table).expect("three-address code");
    let out = try_generate_assembly(&tac).expect("assembly");
    let trimmed: Vec<&str> = out.iter().map(|l| l.trim()).collect();
    let at = trimmed.iter().position(|l| *l == "cqo").unwrap_or_else(|| panic!("{:?}", trimmed));
    assert_eq!(&trimmed[at - 2..at + 3], &["mov rax, [rbp - 8]", "mov rcx, [rbp - 16]", "cqo", "idiv rcx", "mov [rbp - 24], rax"]);
    assert!(!trimmed.iter().any(|l| l.starts_with("? ")));
}

#[test]
fn at_least_and_at_most_compare() {
    let lines = source("fn main() {\n    int a = 1;\n    bool b = a >= 2;\n    bool c = a <= 2;\n    float f = 1.5;\n    bool d = f >= 2.5;\n    bool e = f <= 2.5;\n}");
    let blocks = match try_parse_lines(&lines) {
        Some(Ok(b)) => b,
        _ => panic!("parses"),
    };
    let table = match try_analyze_semantically(&blocks) {
        Some(Ok(t)) => t,
        _ => panic!("no errors"),
    };
    let tac = try_generate_three_address_code(&table).expect("three-address code");
    let out = try_generate_assembly(&tac).expect("assembly");
    let trimmed: Vec<&str> = out.iter().map(|l| l.trim()).collect();
    for set in ["setge al", "setle al", "setae al", "setbe al"] {
        assert!(trimmed.contains(&set), "{} missing from {:?}", set, trimmed);
    }
}

#[test]
fn each_branch_gets_its_own_label_and_temporary() {
    let lines = source("fn f(int a) {\n    if (a == 1) {\n        print_int(a);\n    }\n}\nfn main() {\n    int b = 2;\n    if (b == 2) {\n        print_int(b);\n    }\n}");
    let blocks = match try_parse_lines(&lines) {
        Some(Ok(b)) => b,
        _ => panic!("parses"),
    };
    let table = match try_analyze_semantically(&blocks) {
        Some(Ok(t)) => t,
        _ => panic!("no errors"),
    };
    let tac = try_generate_three_address_code(&table).expect("three-address code");
    let listing: Vec<String> = format_tac_table(&tac).iter().map(|l| l.trim().to_string()).collect();
    assert!(listing.contains(&"_t0 = a == 1".to_string()), "{:?}", listing);
    assert!(listing.contains(&"_t1 = b == 2".to_string()), "{:?}", listing);
    assert!(listing.contains(&"L0: end if".to_string()), "{:?}", listing);
    assert!(listing.contains(&"L1: end if".to_string()), "{:?}", listing);
    let out = try_generate_assembly(&tac).expect("assembly");
    let trimmed: Vec<&str> = out.iter().map(|l| l.trim()).collect();
    assert!(trimmed.contains(&"L0:"));
    assert!(trimmed.contains(&"L1:"));
}

#[test]
fn an_if_takes_the_words_that_follow_it_as_its_condition() {
    let lines = source("fn main() {\n    int a = 1;\n    if (a == 1) {\n        print_int(a);\n    }\n    if (a == 2) {\n        print_int(a);\n    }\n}");
    let blocks = match try_parse_lines(&lines) {
        Some(Ok(b)) => b,
        _ => panic!("parses"),
    };
    let table = match try_analyze_semantically(&blocks) {
        Some(Ok(t)) => t,
        _ => panic!("no errors"),
    };
    let tac = try_generate_three_address_code(&table).expect("three-address code");
    let listing: Vec<String> = format_tac_table(&tac).iter().map(|l| l.trim().to_string()).collect();
    assert_eq!(
        listing,
        vec![
            "function main",
            "a = 1",
            "_t1 = a == 1",
            "_t2 = a == 2",
            "_t0 = _t1 ? _t2",
            "if (_t0)",
            "call print_int(a)",
            "call print_int(a)",
            "L0: end if",
        ]
    );
}

#[test]
fn return_types_are_checked_against_the_variable() {
    assert_eq!(
        errors_of("fn f() -> int {\n    return 1;\n}\nfn main() {\n    bool b = f();\n}"),
        vec![("Type mismatch: variable is 'bool' but function 'f' returns 'int'".to_string(), 5, 14)]
    );
}

#[test]
fn pointer_variables_check_their_literal() {
    assert_eq!(
        errors_of("fn main() {\n    *int p = true;\n}"),
        vec![("Type mismatch. Expected: int, Found: bool".to_string(), 2, 14)]
    );
}

#[test]
fn pointer_parameters_need_an_address() {
    assert_eq!(
        errors_of("fn f(*int a) {\n}\nfn main() {\n    int x = 1;\n    f(x);\n}"),
        vec![(
            "Pointer kind mismatch for argument 1 of function call: expected pointer (*T) — pass with &var, got plain value"
                .to_string(),
            5,
            7
        )]
    );
    assert!(errors_of("fn f(*int a) {\n}\nfn main() {\n    int x = 1;\n    f(&x);\n}").is_empty());
}

#[test]
fn comparisons_store_zero_or_one() {
    let lines = source("fn main() {\n    int a = 1;\n    bool b = a > 2;\n    bool c = a != 2;\n    float f = 1.5;\n    bool d = f < 2.5;\n}");
    let blocks = match try_parse_lines(&lines) {
        Some(Ok(b)) => b,
        _ => panic!("parses"),
    };
    let table = match try_analyze_semantically(&blocks) {
        Some(Ok(t)) => t,
        _ => panic!("no errors"),
    };
    let tac = try_generate_three_address_code(&table).expect("three-address code");
    let out = try_generate_assembly(&tac).expect("assembly");
    let trimmed: Vec<&str> = out.iter().map(|l| l.trim()).collect();
    assert!(trimmed.contains(&"setg al"), "{:?}", trimmed);
    assert!(trimmed.contains(&"setne al"));
    assert!(trimmed.contains(&"setb al"));
    assert!(trimmed.iter().any(|l| l.starts_with("ucomiss xmm0, dword ")));
    assert!(!trimmed.iter().any(|l| l.starts_with("? ")));
}

#[test]
fn print_float_widens_to_a_double() {
    let lines = source("fn main() {\n    float f = 1.5;\n    print_float(f);\n}");
    let blocks = match try_parse_lines(&lines) {
        Some(Ok(b)) => b,
        _ => panic!("parses"),
    };
    let table = match try_analyze_semantically(&blocks) {
        Some(Ok(t)) => t,
        _ => panic!("no errors"),
    };
    let tac = try_generate_three_address_code(&table).expect("three-address code");
    let out = try_generate_assembly(&tac).expect("assembly");
    let text = out.join("\n");
    let start = text.find("print_float:").expect("print_float is copied in");
    let widen = text[start..].find("cvtss2sd xmm0, xmm0").expect("widened");
    let call = text[start..].find("call printf").expect("calls printf");
    assert!(widen < call);
    assert!(text.contains("dd 1.5"));
}

#[test]
fn nested_blocks_close_inside_out() {
    let lines = source("fn main() {\n    int a = 0;\n    while (a < 3) {\n        a++;\n        if (a == 2) {\n            print_int(a);\n        }\n    }\n}");
    let blocks = match try_parse_lines(&lines) {
        Some(Ok(b)) => b,
        _ => panic!("parses"),
    };
    let table = match try_analyze_semantically(&blocks) {
        Some(Ok(t)) => t,
        _ => panic!("no errors"),
    };
    let tac = try_generate_three_address_code(&table).expect("three-address code");
    let listing: Vec<String> = format_tac_table(&tac).iter().map(|l| l.trim().to_string()).collect();
    let pos = |s: &str| listing.iter().position(|l| l == s).unwrap_or_else(|| panic!("{} missing from {:?}", s, listing));
    assert!(pos("L0_loop:") < pos("while (_t0)"));
    assert!(pos("while (_t0)") < pos("if (_t1)"));
    assert!(pos("if (_t1)") < pos("L1: end if"));
    assert!(pos("L1: end if") < pos("L0: end while"));
}

#[test]
fn products_are_computed_before_sums() {
    let lines = source("fn main() {\n    int r = 1 + 2 * 3 - 4;\n}");
    let blocks = match try_parse_lines(&lines) {
        Some(Ok(b)) => b,
        _ => panic!("parses"),
    };
    let table = match try_analyze_semantically(&blocks) {
        Some(Ok(t)) => t,
        _ => panic!("analyzes"),
    };
    let tac = try_generate_three_address_code(&table).expect("three-address code");
    let listing: Vec<String> = format_tac_table(&tac).iter().map(|l| l.trim().to_string()).collect();
    assert_eq!(listing, vec!["function main", "_t0 = 2 * 3", "_t1 = 1 + _t0", "r = _t1 - 4"]);
}

#[test]
fn each_operator_binds_by_its_strength() {
    let lines = source(
        "fn main() {\n    int a = 1;\n    int b = 2;\n    int c = 3;\n    int d = 4;\n    int r = a | b & c << 1 + d;\n}",
    );
    let blocks = match try_parse_lines(&lines) {
        Some(Ok(b)) => b,
        _ => panic!("parses"),
    };
    let table = match try_analyze_semantically(&blocks) {
        Some(Ok(t)) => t,
        _ => panic!("analyzes"),
    };
    let tac = try_generate_three_address_code(&table).expect("three-address code");
    let listing: Vec<String> = format_tac_table(&tac).iter().map(|l| l.trim().to_string()).collect();
    assert_eq!(
        listing[listing.len() - 4..].to_vec(),
        vec!["_t0 = 1 + d", "_t1 = c << _t0", "_t2 = b & _t1", "r = a | _t2"]
    );
}
