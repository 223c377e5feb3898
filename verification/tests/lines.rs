use monkey_c::parser::Word;
use monkey_c::semantic_analyzer::SemanticAnalyzer;

fn w(text: &str, at: usize) -> Word {
    Word { word: text.to_string(), line: Some(1), char_num: Some(at) }
}

fn read(line: Vec<Word>) -> (bool, String, usize) {
    let mut a = SemanticAnalyzer::new();
    let ok = a.tokenize_line(&line);
    let listing = a.format_table();
    let errors = a.errors().len();
    (ok, listing, errors)
}

#[test]
fn a_trailing_comma_is_dropped() {
    let with_comma = read(vec![w("int", 1), w("x", 5), w("=", 7), w("1,", 9)]);
    let without = read(vec![w("int", 1), w("x", 5), w("=", 7), w("1", 9)]);
    assert!(with_comma.0 && without.0);
    assert_eq!(with_comma, without);
}

#[test]
fn a_lone_comma_and_braces_are_skipped() {
    let noisy = read(vec![w("{", 1), w("int", 2), w("x", 6), w(",", 7), w("=", 9), w("1", 11), w("}", 12)]);
    let plain = read(vec![w("int", 2), w("x", 6), w("=", 9), w("1", 11)]);
    assert!(noisy.0 && plain.0);
    assert_eq!(noisy, plain);
}
