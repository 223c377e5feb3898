use monkey_c::semantic_analyzer::TokenType;
use monkey_c::three_address_code_gen::Operator;
use monkey_c::enbeded_funcs::functions;
use monkey_c::text::decimal_string;

const LEXEMES: [&str; 35] = [
    "if", "else", "int", "float", "double", "bool", "char", "str", "+", "-", "*", "/", "=", "+=",
    "-=", "++", "--", "==", "!=", ">", "<", ">=", "<=", "&&", "||", "!", ">>", "<<", "&", "|", "fn", "return",
    "->", "struct", "while",
];

#[test]
fn every_lexeme_lexes_back_to_itself() {
    for w in LEXEMES.iter() {
        let t = TokenType::from_str(w);
        assert_eq!(t.to_str(), w.to_string());
        assert_eq!(TokenType::from_str(&t.to_str()), t);
    }
}

#[test]
fn keywords_have_their_kinds() {
    assert_eq!(TokenType::from_str("if"), TokenType::If);
    assert_eq!(TokenType::from_str("str"), TokenType::String);
    assert_eq!(TokenType::from_str("while"), TokenType::WhileLoop);
    assert_eq!(TokenType::from_str("::"), TokenType::Dots);
    assert_eq!(TokenType::from_str("->"), TokenType::ReturnType);
    assert_eq!(TokenType::from_str(">="), TokenType::GreaterThanEquals);
    assert_eq!(TokenType::from_str("<="), TokenType::LessThanEquals);
    assert_eq!(Operator::from_str(">="), Operator::GreaterThanEquals);
    assert_eq!(Operator::from_str("<="), Operator::LessThanEquals);
}

#[test]
fn dots_are_spelled_like_a_return_type() {
    // `Dots` is spelled "->", which lexes to `ReturnType`.
    assert_eq!(TokenType::Dots.to_str(), "->".to_string());
    assert_eq!(TokenType::from_str(&TokenType::Dots.to_str()), TokenType::ReturnType);
}

#[test]
fn literals_have_their_kinds() {
    assert_eq!(TokenType::from_str("42"), TokenType::IntegerLiteral);
    assert_eq!(TokenType::from_str("-7"), TokenType::IntegerLiteral);
    assert_eq!(TokenType::from_str("3.5f"), TokenType::FloatLiteral);
    assert_eq!(TokenType::from_str("3.14"), TokenType::FloatLiteral);
    assert_eq!(TokenType::from_str("2.5d"), TokenType::DoubleLiteral);
    assert_eq!(TokenType::from_str("2.5D"), TokenType::DoubleLiteral);
    assert_eq!(TokenType::from_str("\"hi\""), TokenType::StringLiteral);
    assert_eq!(TokenType::from_str("'a'"), TokenType::CharLiteral);
    assert_eq!(TokenType::from_str("true"), TokenType::BoolLiteral);
    assert_eq!(TokenType::from_str("false"), TokenType::BoolLiteral);
    assert_eq!(TokenType::from_str("count"), TokenType::Unknow);
}

#[test]
fn integer_literal_bounds() {
    assert_eq!(TokenType::from_str("9223372036854775807"), TokenType::IntegerLiteral);
    assert_eq!(TokenType::from_str("-9223372036854775808"), TokenType::IntegerLiteral);
    assert_ne!(TokenType::from_str("9223372036854775808"), TokenType::IntegerLiteral);
}

#[test]
fn literal_types() {
    assert_eq!(TokenType::IntegerLiteral.literal_type(), Some(TokenType::Int));
    assert_eq!(TokenType::FloatLiteral.literal_type(), Some(TokenType::Float));
    assert_eq!(TokenType::Char.literal_type(), Some(TokenType::Char));
    assert_eq!(TokenType::Plus.literal_type(), None);
}

#[test]
fn token_classes() {
    assert!(TokenType::is_value(TokenType::Unknow));
    assert!(TokenType::is_value(TokenType::StringLiteral));
    assert!(!TokenType::is_value(TokenType::Int));
    assert!(TokenType::is_operator(TokenType::PlusEquals));
    assert!(TokenType::is_operator(TokenType::LeftBitShift));
    assert!(!TokenType::is_operator(TokenType::If));
    assert!(TokenType::is_logical_operator(TokenType::LogicalAnd));
    assert!(TokenType::is_logical_operator(TokenType::GreaterThanEquals));
    assert!(TokenType::is_logical_operator(TokenType::LessThanEquals));
    assert!(!TokenType::is_logical_operator(TokenType::Plus));
    assert!(TokenType::is_aritmetic_operator(TokenType::MinusMinus));
    assert!(TokenType::is_binary_operator(TokenType::Or));
    assert!(!TokenType::is_binary_operator(TokenType::Plus));
}

#[test]
fn struct_type_names() {
    let t = TokenType::StructDef("Point".to_string());
    assert_eq!(t.to_str(), "struct type of Point".to_string());
    let debug: String = t.debug_text().into_iter().collect();
    assert_eq!(debug, "StructDef(\"Point\")".to_string());
    assert_eq!(t, TokenType::StructDef("Point".to_string()));
    assert_ne!(t, TokenType::StructDef("Line".to_string()));
}

#[test]
fn operators_round_trip() {
    let words = ["+", "-", "*", "/", "=", "==", "!=", ">", "<", ">=", "<=", "&&", "||", "!", ">>", "<<", "&", "|"];
    for w in words.iter() {
        let op = Operator::from_str(w);
        assert_ne!(op, Operator::Unknow);
        let text: String = op.as_text().into_iter().collect();
        assert_eq!(text, w.to_string());
    }
    assert_eq!(Operator::from_str("+="), Operator::Unknow);
}

#[test]
fn operator_instructions() {
    assert_eq!(Operator::Plus.to_asm_op(), Some("add"));
    assert_eq!(Operator::Plus.to_asm_op_f32(), Some("addss"));
    assert_eq!(Operator::Plus.to_asm_op_f64(), Some("addsd"));
}

#[test]
fn builtin_table_is_well_formed() {
    let fs = functions();
    assert_eq!(fs.len(), 5);
    let names: Vec<&str> = fs.iter().map(|f| f.name).collect();
    assert_eq!(names, vec!["print_int", "print_float", "print_bool", "print_string", "print_char"]);
    for (i, f) in fs.iter().enumerate() {
        assert_eq!(f.parameters.len(), 1);
        assert!(f.function.starts_with(&format!("{}:", f.name)));
        assert!(f.function.ends_with("ret\n\n    "));
        for g in fs.iter().skip(i + 1) {
            assert_ne!(f.name, g.name);
        }
    }
    assert_eq!(fs[3].parameters[0], "str");
    assert!(fs[1].function.contains("mov rbp, rsp\n    cvtss2sd xmm0, xmm0\n    lea rdi, [rel fmt_float]"));
}

#[test]
fn decimals() {
    assert_eq!(decimal_string(0), "0".to_string());
    assert_eq!(decimal_string(1207), "1207".to_string());
    assert_eq!(decimal_string(u64::MAX), "18446744073709551615".to_string());
}

#[test]
fn only_decimal_numbers_are_float_literals() {
    assert_eq!(TokenType::from_str("1e5"), TokenType::FloatLiteral);
    assert_eq!(TokenType::from_str("-2.5E-3"), TokenType::FloatLiteral);
    assert_eq!(TokenType::from_str("inf"), TokenType::Unknow);
    assert_eq!(TokenType::from_str("NaN"), TokenType::Unknow);
    assert_eq!(TokenType::from_str("infinity"), TokenType::Unknow);
    assert_eq!(TokenType::from_str("1.2.3"), TokenType::Unknow);
}
