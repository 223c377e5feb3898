//! The token kinds of Monkey C and their classification: what a word of
//! source text lexes to, how a kind is spelled back, and which kinds are
//! values, operators and literal types.
use vstd::prelude::*;
use crate::text::{
    chars_of, chars_eq, string_from, push_all, is_i64_text, is_float_text, i64_text, float_text,
};

verus! {

/// The kind of a word of Monkey C source text.
#[derive(Debug, Clone)]
pub enum TokenType {
    If,
    Else,
    Int,
    Float,
    Double,
    Bool,
    Char,
    String,
    Plus,
    Minus,
    Multiplication,
    Division,
    Equals,
    PlusEquals,
    MinusEquals,
    PlusPlus,
    MinusMinus,
    LogicalEquals,
    NotEquals,
    GreaterThan,
    LessThan,
    GreaterThanEquals,
    LessThanEquals,
    LogicalAnd,
    LogicalOr,
    Not,
    RightBitShift,
    LeftBitShift,
    And,
    Or,
    IntegerLiteral,
    FloatLiteral,
    DoubleLiteral,
    CharLiteral,
    StringLiteral,
    BoolLiteral,
    FnLiteral,
    Return,
    ReturnType,
    StructLiteral,
    StructDef(String),
    WhileLoop,
    Dots,
    Unknow,
}

/// A number that tells the kinds apart; equal numbers mean the same kind.
pub open spec fn token_tag(t: TokenType) -> nat {
    match t {
        TokenType::If => 0,
        TokenType::Else => 1,
        TokenType::Int => 2,
        TokenType::Float => 3,
        TokenType::Double => 4,
        TokenType::Bool => 5,
        TokenType::Char => 6,
        TokenType::String => 7,
        TokenType::Plus => 8,
        TokenType::Minus => 9,
        TokenType::Multiplication => 10,
        TokenType::Division => 11,
        TokenType::Equals => 12,
        TokenType::PlusEquals => 13,
        TokenType::MinusEquals => 14,
        TokenType::PlusPlus => 15,
        TokenType::MinusMinus => 16,
        TokenType::LogicalEquals => 17,
        TokenType::NotEquals => 18,
        TokenType::GreaterThan => 19,
        TokenType::LessThan => 20,
        TokenType::GreaterThanEquals => 42,
        TokenType::LessThanEquals => 43,
        TokenType::LogicalAnd => 21,
        TokenType::LogicalOr => 22,
        TokenType::Not => 23,
        TokenType::RightBitShift => 24,
        TokenType::LeftBitShift => 25,
        TokenType::And => 26,
        TokenType::Or => 27,
        TokenType::IntegerLiteral => 28,
        TokenType::FloatLiteral => 29,
        TokenType::DoubleLiteral => 30,
        TokenType::CharLiteral => 31,
        TokenType::StringLiteral => 32,
        TokenType::BoolLiteral => 33,
        TokenType::FnLiteral => 34,
        TokenType::Return => 35,
        TokenType::ReturnType => 36,
        TokenType::StructLiteral => 37,
        TokenType::StructDef(_) => 38,
        TokenType::WhileLoop => 39,
        TokenType::Dots => 40,
        TokenType::Unknow => 41,
    }
}

/// Two tokens are equal when they are of the same kind and, for a struct
/// type, name the same struct.
pub open spec fn tok_eq(a: TokenType, b: TokenType) -> bool {
    &&& token_tag(a) == token_tag(b)
    &&& (a matches TokenType::StructDef(x) ==> (b matches TokenType::StructDef(y) && x@ == y@))
}

pub proof fn lemma_tok_eq(a: TokenType, b: TokenType)
    ensures
        (tok_eq(a, b) && !(a is StructDef)) ==> a == b,
        !(a is StructDef) ==> tok_eq(a, b) == (a == b),
        tok_eq(a, a),
{
}

/// A string with the given characters, the same one for equal sequences.
pub open spec fn str_canon(s: Seq<char>) -> String {
    choose|x: String| x@ == s
}

/// The token with its struct name, if it has one, replaced by `str_canon`
/// of the name's characters: tokens that `tok_eq` relates have one
/// representative, which the models of the symbol table hold.
pub open spec fn canon(t: TokenType) -> TokenType {
    match t {
        TokenType::StructDef(x) => TokenType::StructDef(str_canon(x@)),
        _ => t,
    }
}

pub open spec fn opt_canon(o: Option<TokenType>) -> Option<TokenType> {
    match o {
        Some(t) => Some(canon(t)),
        None => None,
    }
}

pub proof fn lemma_canon(t: TokenType)
    ensures
        canon(canon(t)) == canon(t),
        tok_eq(canon(t), t),
        token_tag(canon(t)) == token_tag(t),
{
    if let TokenType::StructDef(x) = t {
        let y = str_canon(x@);
        assert(exists|z: String| z@ == x@) by {
            assert(x@ == x@);
        }
        assert(y@ == x@);
    }
}

impl TokenType {
    /// The kind's number, as `token_tag` gives it.
    pub fn tag(&self) -> (r: u8)
        ensures
            r as nat == token_tag(*self),
    {
        match self {
            TokenType::If => 0,
            TokenType::Else => 1,
            TokenType::Int => 2,
            TokenType::Float => 3,
            TokenType::Double => 4,
            TokenType::Bool => 5,
            TokenType::Char => 6,
            TokenType::String => 7,
            TokenType::Plus => 8,
            TokenType::Minus => 9,
            TokenType::Multiplication => 10,
            TokenType::Division => 11,
            TokenType::Equals => 12,
            TokenType::PlusEquals => 13,
            TokenType::MinusEquals => 14,
            TokenType::PlusPlus => 15,
            TokenType::MinusMinus => 16,
            TokenType::LogicalEquals => 17,
            TokenType::NotEquals => 18,
            TokenType::GreaterThan => 19,
            TokenType::LessThan => 20,
            TokenType::GreaterThanEquals => 42,
            TokenType::LessThanEquals => 43,
            TokenType::LogicalAnd => 21,
            TokenType::LogicalOr => 22,
            TokenType::Not => 23,
            TokenType::RightBitShift => 24,
            TokenType::LeftBitShift => 25,
            TokenType::And => 26,
            TokenType::Or => 27,
            TokenType::IntegerLiteral => 28,
            TokenType::FloatLiteral => 29,
            TokenType::DoubleLiteral => 30,
            TokenType::CharLiteral => 31,
            TokenType::StringLiteral => 32,
            TokenType::BoolLiteral => 33,
            TokenType::FnLiteral => 34,
            TokenType::Return => 35,
            TokenType::ReturnType => 36,
            TokenType::StructLiteral => 37,
            TokenType::StructDef(_) => 38,
            TokenType::WhileLoop => 39,
            TokenType::Dots => 40,
            TokenType::Unknow => 41,
        }
    }

    /// A copy of the token.
    pub fn copy(&self) -> (r: TokenType)
        ensures
            r == *self,
    {
        match self {
            TokenType::If => TokenType::If,
            TokenType::Else => TokenType::Else,
            TokenType::Int => TokenType::Int,
            TokenType::Float => TokenType::Float,
            TokenType::Double => TokenType::Double,
            TokenType::Bool => TokenType::Bool,
            TokenType::Char => TokenType::Char,
            TokenType::String => TokenType::String,
            TokenType::Plus => TokenType::Plus,
            TokenType::Minus => TokenType::Minus,
            TokenType::Multiplication => TokenType::Multiplication,
            TokenType::Division => TokenType::Division,
            TokenType::Equals => TokenType::Equals,
            TokenType::PlusEquals => TokenType::PlusEquals,
            TokenType::MinusEquals => TokenType::MinusEquals,
            TokenType::PlusPlus => TokenType::PlusPlus,
            TokenType::MinusMinus => TokenType::MinusMinus,
            TokenType::LogicalEquals => TokenType::LogicalEquals,
            TokenType::NotEquals => TokenType::NotEquals,
            TokenType::GreaterThan => TokenType::GreaterThan,
            TokenType::LessThan => TokenType::LessThan,
            TokenType::GreaterThanEquals => TokenType::GreaterThanEquals,
            TokenType::LessThanEquals => TokenType::LessThanEquals,
            TokenType::LogicalAnd => TokenType::LogicalAnd,
            TokenType::LogicalOr => TokenType::LogicalOr,
            TokenType::Not => TokenType::Not,
            TokenType::RightBitShift => TokenType::RightBitShift,
            TokenType::LeftBitShift => TokenType::LeftBitShift,
            TokenType::And => TokenType::And,
            TokenType::Or => TokenType::Or,
            TokenType::IntegerLiteral => TokenType::IntegerLiteral,
            TokenType::FloatLiteral => TokenType::FloatLiteral,
            TokenType::DoubleLiteral => TokenType::DoubleLiteral,
            TokenType::CharLiteral => TokenType::CharLiteral,
            TokenType::StringLiteral => TokenType::StringLiteral,
            TokenType::BoolLiteral => TokenType::BoolLiteral,
            TokenType::FnLiteral => TokenType::FnLiteral,
            TokenType::Return => TokenType::Return,
            TokenType::ReturnType => TokenType::ReturnType,
            TokenType::StructLiteral => TokenType::StructLiteral,
            TokenType::StructDef(s) => TokenType::StructDef(s.clone()),
            TokenType::WhileLoop => TokenType::WhileLoop,
            TokenType::Dots => TokenType::Dots,
            TokenType::Unknow => TokenType::Unknow,
        }
    }

    /// Whether two tokens are of the same kind, and name the same struct when
    /// both are struct types.
    pub fn same(&self, other: &TokenType) -> (r: bool)
        ensures
            r == tok_eq(*self, *other),
    {
        if self.tag() != other.tag() {
            return false;
        }
        assert(token_tag(*self) == 38 <==> self is StructDef);
        assert(token_tag(*other) == 38 <==> other is StructDef);
        match (self, other) {
            (TokenType::StructDef(x), TokenType::StructDef(y)) => {
                let a = chars_of(x.as_str());
                let b = chars_of(y.as_str());
                chars_eq(a.as_slice(), b.as_slice())
            }
            _ => true,
        }
    }
}

impl PartialEq for TokenType {
    fn eq(&self, other: &TokenType) -> (r: bool) {
        self.same(other)
    }
}

impl vstd::std_specs::cmp::PartialEqSpecImpl for TokenType {
    open spec fn obeys_eq_spec() -> bool {
        true
    }

    open spec fn eq_spec(&self, other: &TokenType) -> bool {
        tok_eq(*self, *other)
    }
}

/// The kind that `TokenType::from_str` gives a word.
pub open spec fn token_of(s: Seq<char>) -> TokenType {
    if let Some(t) = keyword_group0(s) {
        t
    } else if let Some(t) = keyword_group1(s) {
        t
    } else if let Some(t) = keyword_group2(s) {
        t
    } else if let Some(t) = keyword_group3(s) {
        t
    } else if s == seq!['t', 'r', 'u', 'e'] || s == seq!['f', 'a', 'l', 's', 'e'] {
        TokenType::BoolLiteral
    } else {
        literal_token_of(s)
    }
}

/// Keywords and operators, part 1.
pub open spec fn keyword_group0(s: Seq<char>) -> Option<TokenType> {
    if s == seq!['i', 'f'] {
        Some(TokenType::If)
    } else if s == seq!['e', 'l', 's', 'e'] {
        Some(TokenType::Else)
    } else if s == seq!['i', 'n', 't'] {
        Some(TokenType::Int)
    } else if s == seq!['f', 'l', 'o', 'a', 't'] {
        Some(TokenType::Float)
    } else if s == seq!['d', 'o', 'u', 'b', 'l', 'e'] {
        Some(TokenType::Double)
    } else if s == seq!['s', 't', 'r'] {
        Some(TokenType::String)
    } else if s == seq!['b', 'o', 'o', 'l'] {
        Some(TokenType::Bool)
    } else if s == seq!['c', 'h', 'a', 'r'] {
        Some(TokenType::Char)
    } else if s == seq!['+'] {
        Some(TokenType::Plus)
    } else {
        None
    }
}

/// Keywords and operators, part 2.
pub open spec fn keyword_group1(s: Seq<char>) -> Option<TokenType> {
    if s == seq!['-'] {
        Some(TokenType::Minus)
    } else if s == seq!['*'] {
        Some(TokenType::Multiplication)
    } else if s == seq!['/'] {
        Some(TokenType::Division)
    } else if s == seq!['='] {
        Some(TokenType::Equals)
    } else if s == seq!['+', '='] {
        Some(TokenType::PlusEquals)
    } else if s == seq!['-', '='] {
        Some(TokenType::MinusEquals)
    } else if s == seq!['+', '+'] {
        Some(TokenType::PlusPlus)
    } else if s == seq!['-', '-'] {
        Some(TokenType::MinusMinus)
    } else if s == seq!['=', '='] {
        Some(TokenType::LogicalEquals)
    } else {
        None
    }
}

/// Keywords and operators, part 3.
pub open spec fn keyword_group2(s: Seq<char>) -> Option<TokenType> {
    if s == seq!['!', '='] {
        Some(TokenType::NotEquals)
    } else if s == seq!['>'] {
        Some(TokenType::GreaterThan)
    } else if s == seq!['<'] {
        Some(TokenType::LessThan)
    } else if s == seq!['&', '&'] {
        Some(TokenType::LogicalAnd)
    } else if s == seq!['|', '|'] {
        Some(TokenType::LogicalOr)
    } else if s == seq!['!'] {
        Some(TokenType::Not)
    } else if s == seq!['>', '>'] {
        Some(TokenType::RightBitShift)
    } else if s == seq!['<', '<'] {
        Some(TokenType::LeftBitShift)
    } else if s == seq!['&'] {
        Some(TokenType::And)
    } else if s == seq!['>', '='] {
        Some(TokenType::GreaterThanEquals)
    } else if s == seq!['<', '='] {
        Some(TokenType::LessThanEquals)
    } else {
        None
    }
}

/// Keywords and operators, part 4.
pub open spec fn keyword_group3(s: Seq<char>) -> Option<TokenType> {
    if s == seq!['|'] {
        Some(TokenType::Or)
    } else if s == seq!['f', 'n'] {
        Some(TokenType::FnLiteral)
    } else if s == seq!['r', 'e', 't', 'u', 'r', 'n'] {
        Some(TokenType::Return)
    } else if s == seq!['-', '>'] {
        Some(TokenType::ReturnType)
    } else if s == seq!['s', 't', 'r', 'u', 'c', 't'] {
        Some(TokenType::StructLiteral)
    } else if s == seq!['w', 'h', 'i', 'l', 'e'] {
        Some(TokenType::WhileLoop)
    } else if s == seq![':', ':'] {
        Some(TokenType::Dots)
    } else {
        None
    }
}

/// The kind of a word that is no keyword or operator: a literal, or an
/// unknown word. A decimal number such as `3.14` is a float literal (an `f`
/// suffix may follow); with a `d` suffix it is a double literal.
pub open spec fn literal_token_of(s: Seq<char>) -> TokenType {
    if is_i64_text(s) {
        TokenType::IntegerLiteral
    } else if s.len() > 0 && (s.last() == 'f' || s.last() == 'F') && is_float_text(s.drop_last()) {
        TokenType::FloatLiteral
    } else if s.len() > 0 && (s.last() == 'd' || s.last() == 'D') && is_float_text(s.drop_last()) {
        TokenType::DoubleLiteral
    } else if is_float_text(s) {
        TokenType::FloatLiteral
    } else if s.len() >= 2 && s[0] == '"' && s.last() == '"' {
        TokenType::StringLiteral
    } else if s.len() >= 3 && s[0] == '\'' && s.last() == '\'' {
        TokenType::CharLiteral
    } else {
        TokenType::Unknow
    }
}

/// How `TokenType::to_str` spells a kind.
pub open spec fn token_text(t: TokenType) -> Seq<char> {
    match t {
        TokenType::If => seq!['i', 'f'],
        TokenType::Else => seq!['e', 'l', 's', 'e'],
        TokenType::Int => seq!['i', 'n', 't'],
        TokenType::Float => seq!['f', 'l', 'o', 'a', 't'],
        TokenType::Double => seq!['d', 'o', 'u', 'b', 'l', 'e'],
        TokenType::Bool => seq!['b', 'o', 'o', 'l'],
        TokenType::Char => seq!['c', 'h', 'a', 'r'],
        TokenType::String => seq!['s', 't', 'r'],
        TokenType::Plus => seq!['+'],
        TokenType::Minus => seq!['-'],
        TokenType::Multiplication => seq!['*'],
        TokenType::Division => seq!['/'],
        TokenType::Equals => seq!['='],
        TokenType::PlusEquals => seq!['+', '='],
        TokenType::MinusEquals => seq!['-', '='],
        TokenType::PlusPlus => seq!['+', '+'],
        TokenType::MinusMinus => seq!['-', '-'],
        TokenType::LogicalEquals => seq!['=', '='],
        TokenType::NotEquals => seq!['!', '='],
        TokenType::GreaterThan => seq!['>'],
        TokenType::LessThan => seq!['<'],
        TokenType::GreaterThanEquals => seq!['>', '='],
        TokenType::LessThanEquals => seq!['<', '='],
        TokenType::LogicalAnd => seq!['&', '&'],
        TokenType::LogicalOr => seq!['|', '|'],
        TokenType::Not => seq!['!'],
        TokenType::RightBitShift => seq!['>', '>'],
        TokenType::LeftBitShift => seq!['<', '<'],
        TokenType::And => seq!['&'],
        TokenType::Or => seq!['|'],
        TokenType::IntegerLiteral => seq!['<', 'i', 'n', 't', 'e', 'g', 'e', 'r', ' ', 'l', 'i', 't', 'e', 'r', 'a', 'l', '>'],
        TokenType::FloatLiteral => seq!['<', 'f', 'l', 'o', 'a', 't', ' ', 'l', 'i', 't', 'e', 'r', 'a', 'l', '>'],
        TokenType::DoubleLiteral => seq!['<', 'd', 'o', 'u', 'b', 'l', 'e', ' ', 'l', 'i', 't', 'e', 'r', 'a', 'l', '>'],
        TokenType::CharLiteral => seq!['<', 'c', 'h', 'a', 'r', ' ', 'l', 'i', 't', 'e', 'r', 'a', 'l', '>'],
        TokenType::StringLiteral => seq!['<', 's', 't', 'r', 'i', 'n', 'g', ' ', 'l', 'i', 't', 'e', 'r', 'a', 'l', '>'],
        TokenType::BoolLiteral => seq!['<', 'b', 'o', 'o', 'l', ' ', 'l', 'i', 't', 'e', 'r', 'a', 'l', '>'],
        TokenType::FnLiteral => seq!['f', 'n'],
        TokenType::Return => seq!['r', 'e', 't', 'u', 'r', 'n'],
        TokenType::ReturnType => seq!['-', '>'],
        TokenType::StructLiteral => seq!['s', 't', 'r', 'u', 'c', 't'],
        TokenType::StructDef(name) => seq!['s', 't', 'r', 'u', 'c', 't', ' ', 't', 'y', 'p', 'e', ' ', 'o', 'f', ' '] + name@,
        TokenType::WhileLoop => seq!['w', 'h', 'i', 'l', 'e'],
        TokenType::Dots => seq!['-', '>'],
        TokenType::Unknow => seq!['<', 'u', 'n', 'k', 'n', 'o', 'w', 'n', '>'],
    }
}

/// The kinds that are spelled by a fixed lexeme of the language: keywords,
/// type names and operators.
pub open spec fn is_lexeme_token(t: TokenType) -> bool {
    is_type_token(t) || is_operator_token(t) || t is If || t is Else || t is FnLiteral
        || t is Return || t is ReturnType || t is StructLiteral || t is WhileLoop
}

/// Every keyword, type name and operator lexes back to its own kind from the
/// lexeme that `to_str` spells it with.
pub proof fn lemma_lexeme_round_trip(t: TokenType)
    requires
        is_lexeme_token(t),
    ensures
        token_of(token_text(t)) == t,
{
    let s = token_text(t);
    match t {
        TokenType::If => { assert(s =~= seq!['i', 'f']); },
        TokenType::Else => { assert(s =~= seq!['e', 'l', 's', 'e']); },
        TokenType::Int => { assert(s =~= seq!['i', 'n', 't']); },
        TokenType::Float => { assert(s =~= seq!['f', 'l', 'o', 'a', 't']); },
        TokenType::Double => { assert(s =~= seq!['d', 'o', 'u', 'b', 'l', 'e']); },
        TokenType::Bool => { assert(s =~= seq!['b', 'o', 'o', 'l']); },
        TokenType::Char => { assert(s =~= seq!['c', 'h', 'a', 'r']); },
        TokenType::String => { assert(s =~= seq!['s', 't', 'r']); },
        _ => {},
    }
}

pub open spec fn is_value_token(t: TokenType) -> bool {
    t is Unknow || t is IntegerLiteral || t is FloatLiteral || t is DoubleLiteral || t is BoolLiteral
        || t is StringLiteral || t is CharLiteral
}

pub open spec fn is_logical_token(t: TokenType) -> bool {
    t is LogicalEquals || t is NotEquals || t is GreaterThan || t is LessThan || t is GreaterThanEquals || t is LessThanEquals || t is LogicalAnd
        || t is LogicalOr || t is Not
}

pub open spec fn is_arithmetic_token(t: TokenType) -> bool {
    t is Plus || t is Minus || t is Multiplication || t is Division || t is Equals || t is PlusEquals
        || t is MinusEquals || t is PlusPlus || t is MinusMinus
}

pub open spec fn is_bitwise_token(t: TokenType) -> bool {
    t is RightBitShift || t is LeftBitShift || t is And || t is Or
}

pub open spec fn is_operator_token(t: TokenType) -> bool {
    is_arithmetic_token(t) || is_bitwise_token(t) || is_logical_token(t)
}

/// The type a literal kind (or a type kind itself) stands for.
pub open spec fn literal_type_of(t: TokenType) -> Option<TokenType> {
    match t {
        TokenType::IntegerLiteral | TokenType::Int => Some(TokenType::Int),
        TokenType::FloatLiteral | TokenType::Float => Some(TokenType::Float),
        TokenType::DoubleLiteral | TokenType::Double => Some(TokenType::Double),
        TokenType::StringLiteral | TokenType::String => Some(TokenType::String),
        TokenType::CharLiteral | TokenType::Char => Some(TokenType::Char),
        TokenType::BoolLiteral | TokenType::Bool => Some(TokenType::Bool),
        _ => None,
    }
}

/// The type keyword of the language that names what a literal kind is
/// written for: `int` for integer literals, `float`, `double`, `str` for
/// string literals, `char`, `bool`.
pub open spec fn literal_keyword(t: TokenType) -> Option<Seq<char>> {
    match t {
        TokenType::IntegerLiteral => Some(seq!['i', 'n', 't']),
        TokenType::FloatLiteral => Some(seq!['f', 'l', 'o', 'a', 't']),
        TokenType::DoubleLiteral => Some(seq!['d', 'o', 'u', 'b', 'l', 'e']),
        TokenType::StringLiteral => Some(seq!['s', 't', 'r']),
        TokenType::CharLiteral => Some(seq!['c', 'h', 'a', 'r']),
        TokenType::BoolLiteral => Some(seq!['b', 'o', 'o', 'l']),
        _ => None,
    }
}

/// A literal stands for the type that its keyword names (a string literal
/// for `str`, and so on); a type keyword stands for itself; and whatever has
/// a type has one of the language's value types.
pub proof fn lemma_literal_types(t: TokenType)
    ensures
        literal_keyword(t) matches Some(k) ==> literal_type_of(t) == Some(token_of(k)),
        is_type_token(t) ==> literal_type_of(t) == Some(t),
        literal_type_of(t) matches Some(u) ==> is_type_token(u),
{
    lemma_lexeme_round_trip(TokenType::Int);
    lemma_lexeme_round_trip(TokenType::Float);
    lemma_lexeme_round_trip(TokenType::Double);
    lemma_lexeme_round_trip(TokenType::String);
    lemma_lexeme_round_trip(TokenType::Char);
    lemma_lexeme_round_trip(TokenType::Bool);
}

/// The kinds that name a value type of the language.
pub open spec fn is_type_token(t: TokenType) -> bool {
    t is Int || t is Float || t is Double || t is Bool || t is Char || t is String
}

impl TokenType {
    /// The kind of the word `s`.
    pub fn from_str(s: &str) -> (r: TokenType)
        ensures
            r == token_of(s@),
    {
        let v = chars_of(s);
        Self::from_chars(v.as_slice())
    }

    /// The kind of the word whose characters are `s`.
    pub fn from_chars(s: &[char]) -> (r: TokenType)
        ensures
            r == token_of(s@),
    {
        if let Some(t) = Self::keyword_group0(s) {
            t
        } else if let Some(t) = Self::keyword_group1(s) {
            t
        } else if let Some(t) = Self::keyword_group2(s) {
            t
        } else if let Some(t) = Self::keyword_group3(s) {
            t
        } else if Self::is_bool_word(s) {
            TokenType::BoolLiteral
        } else {
            Self::literal_kind(s)
        }
    }

    fn is_bool_word(s: &[char]) -> (r: bool)
        ensures
            r == (s@ == seq!['t', 'r', 'u', 'e'] || s@ == seq!['f', 'a', 'l', 's', 'e']),
    {
        let t: &[char] = &['t', 'r', 'u', 'e'];
        let f: &[char] = &['f', 'a', 'l', 's', 'e'];
        assert(t@ == seq!['t', 'r', 'u', 'e']);
        assert(f@ == seq!['f', 'a', 'l', 's', 'e']);
        chars_eq(s, t) || chars_eq(s, f)
    }

    fn keyword_group0(s: &[char]) -> (r: Option<TokenType>)
        ensures
            r == keyword_group0(s@),
    {
        let k0: &[char] = &['i', 'f'];
        assert(k0@ == seq!['i', 'f']);
        let k1: &[char] = &['e', 'l', 's', 'e'];
        assert(k1@ == seq!['e', 'l', 's', 'e']);
        let k2: &[char] = &['i', 'n', 't'];
        assert(k2@ == seq!['i', 'n', 't']);
        let k3: &[char] = &['f', 'l', 'o', 'a', 't'];
        assert(k3@ == seq!['f', 'l', 'o', 'a', 't']);
        let k4: &[char] = &['d', 'o', 'u', 'b', 'l', 'e'];
        assert(k4@ == seq!['d', 'o', 'u', 'b', 'l', 'e']);
        let k5: &[char] = &['s', 't', 'r'];
        assert(k5@ == seq!['s', 't', 'r']);
        let k6: &[char] = &['b', 'o', 'o', 'l'];
        assert(k6@ == seq!['b', 'o', 'o', 'l']);
        let k7: &[char] = &['c', 'h', 'a', 'r'];
        assert(k7@ == seq!['c', 'h', 'a', 'r']);
        let k8: &[char] = &['+'];
        assert(k8@ == seq!['+']);
        if chars_eq(s, k0) {
            Some(TokenType::If)
        } else if chars_eq(s, k1) {
            Some(TokenType::Else)
        } else if chars_eq(s, k2) {
            Some(TokenType::Int)
        } else if chars_eq(s, k3) {
            Some(TokenType::Float)
        } else if chars_eq(s, k4) {
            Some(TokenType::Double)
        } else if chars_eq(s, k5) {
            Some(TokenType::String)
        } else if chars_eq(s, k6) {
            Some(TokenType::Bool)
        } else if chars_eq(s, k7) {
            Some(TokenType::Char)
        } else if chars_eq(s, k8) {
            Some(TokenType::Plus)
        } else {
            None
        }
    }

    fn keyword_group1(s: &[char]) -> (r: Option<TokenType>)
        ensures
            r == keyword_group1(s@),
    {
        let k0: &[char] = &['-'];
        assert(k0@ == seq!['-']);
        let k1: &[char] = &['*'];
        assert(k1@ == seq!['*']);
        let k2: &[char] = &['/'];
        assert(k2@ == seq!['/']);
        let k3: &[char] = &['='];
        assert(k3@ == seq!['=']);
        let k4: &[char] = &['+', '='];
        assert(k4@ == seq!['+', '=']);
        let k5: &[char] = &['-', '='];
        assert(k5@ == seq!['-', '=']);
        let k6: &[char] = &['+', '+'];
        assert(k6@ == seq!['+', '+']);
        let k7: &[char] = &['-', '-'];
        assert(k7@ == seq!['-', '-']);
        let k8: &[char] = &['=', '='];
        assert(k8@ == seq!['=', '=']);
        if chars_eq(s, k0) {
            Some(TokenType::Minus)
        } else if chars_eq(s, k1) {
            Some(TokenType::Multiplication)
        } else if chars_eq(s, k2) {
            Some(TokenType::Division)
        } else if chars_eq(s, k3) {
            Some(TokenType::Equals)
        } else if chars_eq(s, k4) {
            Some(TokenType::PlusEquals)
        } else if chars_eq(s, k5) {
            Some(TokenType::MinusEquals)
        } else if chars_eq(s, k6) {
            Some(TokenType::PlusPlus)
        } else if chars_eq(s, k7) {
            Some(TokenType::MinusMinus)
        } else if chars_eq(s, k8) {
            Some(TokenType::LogicalEquals)
        } else {
            None
        }
    }

    fn keyword_group2(s: &[char]) -> (r: Option<TokenType>)
        ensures
            r == keyword_group2(s@),
    {
        let k0: &[char] = &['!', '='];
        assert(k0@ == seq!['!', '=']);
        let k1: &[char] = &['>'];
        assert(k1@ == seq!['>']);
        let k2: &[char] = &['<'];
        assert(k2@ == seq!['<']);
        let k3: &[char] = &['&', '&'];
        assert(k3@ == seq!['&', '&']);
        let k4: &[char] = &['|', '|'];
        assert(k4@ == seq!['|', '|']);
        let k5: &[char] = &['!'];
        assert(k5@ == seq!['!']);
        let k6: &[char] = &['>', '>'];
        assert(k6@ == seq!['>', '>']);
        let k7: &[char] = &['<', '<'];
        assert(k7@ == seq!['<', '<']);
        let k8: &[char] = &['&'];
        assert(k8@ == seq!['&']);
        let k9: &[char] = &['>', '='];
        assert(k9@ == seq!['>', '=']);
        let k10: &[char] = &['<', '='];
        assert(k10@ == seq!['<', '=']);
        if chars_eq(s, k0) {
            Some(TokenType::NotEquals)
        } else if chars_eq(s, k1) {
            Some(TokenType::GreaterThan)
        } else if chars_eq(s, k2) {
            Some(TokenType::LessThan)
        } else if chars_eq(s, k3) {
            Some(TokenType::LogicalAnd)
        } else if chars_eq(s, k4) {
            Some(TokenType::LogicalOr)
        } else if chars_eq(s, k5) {
            Some(TokenType::Not)
        } else if chars_eq(s, k6) {
            Some(TokenType::RightBitShift)
        } else if chars_eq(s, k7) {
            Some(TokenType::LeftBitShift)
        } else if chars_eq(s, k8) {
            Some(TokenType::And)
        } else if chars_eq(s, k9) {
            Some(TokenType::GreaterThanEquals)
        } else if chars_eq(s, k10) {
            Some(TokenType::LessThanEquals)
        } else {
            None
        }
    }

    fn keyword_group3(s: &[char]) -> (r: Option<TokenType>)
        ensures
            r == keyword_group3(s@),
    {
        let k0: &[char] = &['|'];
        assert(k0@ == seq!['|']);
        let k1: &[char] = &['f', 'n'];
        assert(k1@ == seq!['f', 'n']);
        let k2: &[char] = &['r', 'e', 't', 'u', 'r', 'n'];
        assert(k2@ == seq!['r', 'e', 't', 'u', 'r', 'n']);
        let k3: &[char] = &['-', '>'];
        assert(k3@ == seq!['-', '>']);
        let k4: &[char] = &['s', 't', 'r', 'u', 'c', 't'];
        assert(k4@ == seq!['s', 't', 'r', 'u', 'c', 't']);
        let k5: &[char] = &['w', 'h', 'i', 'l', 'e'];
        assert(k5@ == seq!['w', 'h', 'i', 'l', 'e']);
        let k6: &[char] = &[':', ':'];
        assert(k6@ == seq![':', ':']);
        if chars_eq(s, k0) {
            Some(TokenType::Or)
        } else if chars_eq(s, k1) {
            Some(TokenType::FnLiteral)
        } else if chars_eq(s, k2) {
            Some(TokenType::Return)
        } else if chars_eq(s, k3) {
            Some(TokenType::ReturnType)
        } else if chars_eq(s, k4) {
            Some(TokenType::StructLiteral)
        } else if chars_eq(s, k5) {
            Some(TokenType::WhileLoop)
        } else if chars_eq(s, k6) {
            Some(TokenType::Dots)
        } else {
            None
        }
    }

    /// The kind of a word that is no keyword or operator.
    pub fn literal_kind(s: &[char]) -> (r: TokenType)
        ensures
            r == literal_token_of(s@),
    {
        assert(s@.take(s@.len() as int) =~= s@);
        assert(s@.len() > 0 ==> s@.take(s@.len() - 1) =~= s@.drop_last());
        if i64_text(s) {
            TokenType::IntegerLiteral
        } else if s.len() > 0 && (s[s.len() - 1] == 'f' || s[s.len() - 1] == 'F') && float_text(s, s.len() - 1) {
            TokenType::FloatLiteral
        } else if s.len() > 0 && (s[s.len() - 1] == 'd' || s[s.len() - 1] == 'D') && float_text(s, s.len() - 1) {
            TokenType::DoubleLiteral
        } else if float_text(s, s.len()) {
            TokenType::FloatLiteral
        } else if s.len() >= 2 && s[0] == '"' && s[s.len() - 1] == '"' {
            TokenType::StringLiteral
        } else if s.len() >= 3 && s[0] == '\'' && s[s.len() - 1] == '\'' {
            TokenType::CharLiteral
        } else {
            TokenType::Unknow
        }
    }

    /// How the kind is spelled in messages.
    pub fn to_str(&self) -> (r: String)
        ensures
            r@ == token_text(*self),
    {
        let v = self.text();
        string_from(v.as_slice())
    }

    /// The characters of `to_str`.
    pub fn text(&self) -> (r: Vec<char>)
        ensures
            r@ == token_text(*self),
    {
        let mut out: Vec<char> = Vec::new();
        match self {
            TokenType::If => push_all(&mut out, &['i', 'f']),
            TokenType::Else => push_all(&mut out, &['e', 'l', 's', 'e']),
            TokenType::Int => push_all(&mut out, &['i', 'n', 't']),
            TokenType::Float => push_all(&mut out, &['f', 'l', 'o', 'a', 't']),
            TokenType::Double => push_all(&mut out, &['d', 'o', 'u', 'b', 'l', 'e']),
            TokenType::Bool => push_all(&mut out, &['b', 'o', 'o', 'l']),
            TokenType::Char => push_all(&mut out, &['c', 'h', 'a', 'r']),
            TokenType::String => push_all(&mut out, &['s', 't', 'r']),
            TokenType::Plus => push_all(&mut out, &['+']),
            TokenType::Minus => push_all(&mut out, &['-']),
            TokenType::Multiplication => push_all(&mut out, &['*']),
            TokenType::Division => push_all(&mut out, &['/']),
            TokenType::Equals => push_all(&mut out, &['=']),
            TokenType::PlusEquals => push_all(&mut out, &['+', '=']),
            TokenType::MinusEquals => push_all(&mut out, &['-', '=']),
            TokenType::PlusPlus => push_all(&mut out, &['+', '+']),
            TokenType::MinusMinus => push_all(&mut out, &['-', '-']),
            TokenType::LogicalEquals => push_all(&mut out, &['=', '=']),
            TokenType::NotEquals => push_all(&mut out, &['!', '=']),
            TokenType::GreaterThan => push_all(&mut out, &['>']),
            TokenType::LessThan => push_all(&mut out, &['<']),
            TokenType::GreaterThanEquals => push_all(&mut out, &['>', '=']),
            TokenType::LessThanEquals => push_all(&mut out, &['<', '=']),
            TokenType::LogicalAnd => push_all(&mut out, &['&', '&']),
            TokenType::LogicalOr => push_all(&mut out, &['|', '|']),
            TokenType::Not => push_all(&mut out, &['!']),
            TokenType::RightBitShift => push_all(&mut out, &['>', '>']),
            TokenType::LeftBitShift => push_all(&mut out, &['<', '<']),
            TokenType::And => push_all(&mut out, &['&']),
            TokenType::Or => push_all(&mut out, &['|']),
            TokenType::IntegerLiteral => push_all(&mut out, &['<', 'i', 'n', 't', 'e', 'g', 'e', 'r', ' ', 'l', 'i', 't', 'e', 'r', 'a', 'l', '>']),
            TokenType::FloatLiteral => push_all(&mut out, &['<', 'f', 'l', 'o', 'a', 't', ' ', 'l', 'i', 't', 'e', 'r', 'a', 'l', '>']),
            TokenType::DoubleLiteral => push_all(&mut out, &['<', 'd', 'o', 'u', 'b', 'l', 'e', ' ', 'l', 'i', 't', 'e', 'r', 'a', 'l', '>']),
            TokenType::CharLiteral => push_all(&mut out, &['<', 'c', 'h', 'a', 'r', ' ', 'l', 'i', 't', 'e', 'r', 'a', 'l', '>']),
            TokenType::StringLiteral => push_all(&mut out, &['<', 's', 't', 'r', 'i', 'n', 'g', ' ', 'l', 'i', 't', 'e', 'r', 'a', 'l', '>']),
            TokenType::BoolLiteral => push_all(&mut out, &['<', 'b', 'o', 'o', 'l', ' ', 'l', 'i', 't', 'e', 'r', 'a', 'l', '>']),
            TokenType::FnLiteral => push_all(&mut out, &['f', 'n']),
            TokenType::Return => push_all(&mut out, &['r', 'e', 't', 'u', 'r', 'n']),
            TokenType::ReturnType => push_all(&mut out, &['-', '>']),
            TokenType::StructLiteral => push_all(&mut out, &['s', 't', 'r', 'u', 'c', 't']),
            TokenType::StructDef(name) => {
                push_all(&mut out, &['s', 't', 'r', 'u', 'c', 't', ' ', 't', 'y', 'p', 'e', ' ', 'o', 'f', ' ']);
                let n = chars_of(name.as_str());
                push_all(&mut out, n.as_slice());
            }
            TokenType::WhileLoop => push_all(&mut out, &['w', 'h', 'i', 'l', 'e']),
            TokenType::Dots => push_all(&mut out, &['-', '>']),
            TokenType::Unknow => push_all(&mut out, &['<', 'u', 'n', 'k', 'n', 'o', 'w', 'n', '>']),
        }
        assert(out@ =~= token_text(*self));
        out
    }

    /// Whether the kind is a value: a literal or an unknown word (a name).
    pub fn is_value(token: TokenType) -> (r: bool)
        ensures
            r == is_value_token(token),
    {
        match token {
            TokenType::Unknow | TokenType::IntegerLiteral | TokenType::FloatLiteral | TokenType::DoubleLiteral
            | TokenType::BoolLiteral | TokenType::StringLiteral | TokenType::CharLiteral => true,
            _ => false,
        }
    }

    /// Whether the kind is an arithmetic, bitwise or logical operator.
    pub fn is_operator(token: TokenType) -> (r: bool)
        ensures
            r == is_operator_token(token),
    {
        let t2 = token.copy();
        let t3 = token.copy();
        TokenType::is_aritmetic_operator(token) || TokenType::is_binary_operator(t2)
            || TokenType::is_logical_operator(t3)
    }

    /// Whether the kind is a comparison or logical connective.
    pub fn is_logical_operator(token: TokenType) -> (r: bool)
        ensures
            r == is_logical_token(token),
    {
        match token {
            TokenType::LogicalEquals | TokenType::NotEquals | TokenType::GreaterThan | TokenType::LessThan
            | TokenType::GreaterThanEquals | TokenType::LessThanEquals
            | TokenType::LogicalAnd | TokenType::LogicalOr | TokenType::Not => true,
            _ => false,
        }
    }

    /// Whether the kind is an arithmetic or assignment operator.
    pub fn is_aritmetic_operator(token: TokenType) -> (r: bool)
        ensures
            r == is_arithmetic_token(token),
    {
        match token {
            TokenType::Plus | TokenType::Minus | TokenType::Multiplication | TokenType::Division
            | TokenType::Equals | TokenType::PlusEquals | TokenType::MinusEquals | TokenType::PlusPlus
            | TokenType::MinusMinus => true,
            _ => false,
        }
    }

    /// Whether the kind is a shift or bitwise operator.
    pub fn is_binary_operator(token: TokenType) -> (r: bool)
        ensures
            r == is_bitwise_token(token),
    {
        match token {
            TokenType::RightBitShift | TokenType::LeftBitShift | TokenType::And | TokenType::Or => true,
            _ => false,
        }
    }

    /// The type a literal stands for; a type kind gives itself; other kinds give nothing.
    pub fn literal_type(&self) -> (r: Option<TokenType>)
        ensures
            r == literal_type_of(*self),
    {
        match self {
            TokenType::IntegerLiteral | TokenType::Int => Some(TokenType::Int),
            TokenType::FloatLiteral | TokenType::Float => Some(TokenType::Float),
            TokenType::DoubleLiteral | TokenType::Double => Some(TokenType::Double),
            TokenType::StringLiteral | TokenType::String => Some(TokenType::String),
            TokenType::CharLiteral | TokenType::Char => Some(TokenType::Char),
            TokenType::BoolLiteral | TokenType::Bool => Some(TokenType::Bool),
            _ => None,
        }
    }
}

/// Where a name resolved: the outermost table, a function body, a
/// function's parameters, or the built-in functions.
#[derive(Debug, PartialEq, Eq, Structural, Clone, Copy)]
pub enum Scope {
    Root,
    Function,
    Parameter,
    EnbedFunc,
}

/// The text `{:?}` gives a token: its kind's name, and for a struct type
/// the quoted and escaped struct name in brackets.
pub open spec fn token_debug(t: TokenType) -> Seq<char> {
    match t {
        TokenType::If => seq!['I', 'f'],
        TokenType::Else => seq!['E', 'l', 's', 'e'],
        TokenType::Int => seq!['I', 'n', 't'],
        TokenType::Float => seq!['F', 'l', 'o', 'a', 't'],
        TokenType::Double => seq!['D', 'o', 'u', 'b', 'l', 'e'],
        TokenType::Bool => seq!['B', 'o', 'o', 'l'],
        TokenType::Char => seq!['C', 'h', 'a', 'r'],
        TokenType::String => seq!['S', 't', 'r', 'i', 'n', 'g'],
        TokenType::Plus => seq!['P', 'l', 'u', 's'],
        TokenType::Minus => seq!['M', 'i', 'n', 'u', 's'],
        TokenType::Multiplication => seq!['M', 'u', 'l', 't', 'i', 'p', 'l', 'i', 'c', 'a', 't', 'i', 'o', 'n'],
        TokenType::Division => seq!['D', 'i', 'v', 'i', 's', 'i', 'o', 'n'],
        TokenType::Equals => seq!['E', 'q', 'u', 'a', 'l', 's'],
        TokenType::PlusEquals => seq!['P', 'l', 'u', 's', 'E', 'q', 'u', 'a', 'l', 's'],
        TokenType::MinusEquals => seq!['M', 'i', 'n', 'u', 's', 'E', 'q', 'u', 'a', 'l', 's'],
        TokenType::PlusPlus => seq!['P', 'l', 'u', 's', 'P', 'l', 'u', 's'],
        TokenType::MinusMinus => seq!['M', 'i', 'n', 'u', 's', 'M', 'i', 'n', 'u', 's'],
        TokenType::LogicalEquals => seq!['L', 'o', 'g', 'i', 'c', 'a', 'l', 'E', 'q', 'u', 'a', 'l', 's'],
        TokenType::NotEquals => seq!['N', 'o', 't', 'E', 'q', 'u', 'a', 'l', 's'],
        TokenType::GreaterThan => seq!['G', 'r', 'e', 'a', 't', 'e', 'r', 'T', 'h', 'a', 'n'],
        TokenType::LessThan => seq!['L', 'e', 's', 's', 'T', 'h', 'a', 'n'],
        TokenType::GreaterThanEquals => seq!['G', 'r', 'e', 'a', 't', 'e', 'r', 'T', 'h', 'a', 'n', 'E', 'q', 'u', 'a', 'l', 's'],
        TokenType::LessThanEquals => seq!['L', 'e', 's', 's', 'T', 'h', 'a', 'n', 'E', 'q', 'u', 'a', 'l', 's'],
        TokenType::LogicalAnd => seq!['L', 'o', 'g', 'i', 'c', 'a', 'l', 'A', 'n', 'd'],
        TokenType::LogicalOr => seq!['L', 'o', 'g', 'i', 'c', 'a', 'l', 'O', 'r'],
        TokenType::Not => seq!['N', 'o', 't'],
        TokenType::RightBitShift => seq!['R', 'i', 'g', 'h', 't', 'B', 'i', 't', 'S', 'h', 'i', 'f', 't'],
        TokenType::LeftBitShift => seq!['L', 'e', 'f', 't', 'B', 'i', 't', 'S', 'h', 'i', 'f', 't'],
        TokenType::And => seq!['A', 'n', 'd'],
        TokenType::Or => seq!['O', 'r'],
        TokenType::IntegerLiteral => seq!['I', 'n', 't', 'e', 'g', 'e', 'r', 'L', 'i', 't', 'e', 'r', 'a', 'l'],
        TokenType::FloatLiteral => seq!['F', 'l', 'o', 'a', 't', 'L', 'i', 't', 'e', 'r', 'a', 'l'],
        TokenType::DoubleLiteral => seq!['D', 'o', 'u', 'b', 'l', 'e', 'L', 'i', 't', 'e', 'r', 'a', 'l'],
        TokenType::CharLiteral => seq!['C', 'h', 'a', 'r', 'L', 'i', 't', 'e', 'r', 'a', 'l'],
        TokenType::StringLiteral => seq!['S', 't', 'r', 'i', 'n', 'g', 'L', 'i', 't', 'e', 'r', 'a', 'l'],
        TokenType::BoolLiteral => seq!['B', 'o', 'o', 'l', 'L', 'i', 't', 'e', 'r', 'a', 'l'],
        TokenType::FnLiteral => seq!['F', 'n', 'L', 'i', 't', 'e', 'r', 'a', 'l'],
        TokenType::Return => seq!['R', 'e', 't', 'u', 'r', 'n'],
        TokenType::ReturnType => seq!['R', 'e', 't', 'u', 'r', 'n', 'T', 'y', 'p', 'e'],
        TokenType::StructLiteral => seq!['S', 't', 'r', 'u', 'c', 't', 'L', 'i', 't', 'e', 'r', 'a', 'l'],
        TokenType::WhileLoop => seq!['W', 'h', 'i', 'l', 'e', 'L', 'o', 'o', 'p'],
        TokenType::Dots => seq!['D', 'o', 't', 's'],
        TokenType::Unknow => seq!['U', 'n', 'k', 'n', 'o', 'w'],
        TokenType::StructDef(n) => seq!['S', 't', 'r', 'u', 'c', 't', 'D', 'e', 'f', '('] + str_debug(n@) + seq![')'],
    }
}

/// The text that `{:?}` gives a string slice: the characters in double
/// quotes, with quotes, backslashes and non-printable characters escaped.
pub uninterp spec fn str_debug(s: Seq<char>) -> Seq<char>;

/// Formats a string slice with `{:?}` (the standard library's `Debug` for `str`).
/// Trusted: the result is `str_debug` of the slice's characters.
#[verifier::external_body]
pub(crate) fn debug_str(s: &str) -> (r: String)
    ensures
        r@ == str_debug(s@),
{
    format!("{:?}", s)
}

impl TokenType {
    /// The characters of the token's `{:?}` text.
    pub fn debug_text(&self) -> (r: Vec<char>)
        ensures
            r@ == token_debug(*self),
    {
        let mut out: Vec<char> = Vec::new();
        match self {
            TokenType::If => push_all(&mut out, &['I', 'f']),
            TokenType::Else => push_all(&mut out, &['E', 'l', 's', 'e']),
            TokenType::Int => push_all(&mut out, &['I', 'n', 't']),
            TokenType::Float => push_all(&mut out, &['F', 'l', 'o', 'a', 't']),
            TokenType::Double => push_all(&mut out, &['D', 'o', 'u', 'b', 'l', 'e']),
            TokenType::Bool => push_all(&mut out, &['B', 'o', 'o', 'l']),
            TokenType::Char => push_all(&mut out, &['C', 'h', 'a', 'r']),
            TokenType::String => push_all(&mut out, &['S', 't', 'r', 'i', 'n', 'g']),
            TokenType::Plus => push_all(&mut out, &['P', 'l', 'u', 's']),
            TokenType::Minus => push_all(&mut out, &['M', 'i', 'n', 'u', 's']),
            TokenType::Multiplication => push_all(&mut out, &['M', 'u', 'l', 't', 'i', 'p', 'l', 'i', 'c', 'a', 't', 'i', 'o', 'n']),
            TokenType::Division => push_all(&mut out, &['D', 'i', 'v', 'i', 's', 'i', 'o', 'n']),
            TokenType::Equals => push_all(&mut out, &['E', 'q', 'u', 'a', 'l', 's']),
            TokenType::PlusEquals => push_all(&mut out, &['P', 'l', 'u', 's', 'E', 'q', 'u', 'a', 'l', 's']),
            TokenType::MinusEquals => push_all(&mut out, &['M', 'i', 'n', 'u', 's', 'E', 'q', 'u', 'a', 'l', 's']),
            TokenType::PlusPlus => push_all(&mut out, &['P', 'l', 'u', 's', 'P', 'l', 'u', 's']),
            TokenType::MinusMinus => push_all(&mut out, &['M', 'i', 'n', 'u', 's', 'M', 'i', 'n', 'u', 's']),
            TokenType::LogicalEquals => push_all(&mut out, &['L', 'o', 'g', 'i', 'c', 'a', 'l', 'E', 'q', 'u', 'a', 'l', 's']),
            TokenType::NotEquals => push_all(&mut out, &['N', 'o', 't', 'E', 'q', 'u', 'a', 'l', 's']),
            TokenType::GreaterThan => push_all(&mut out, &['G', 'r', 'e', 'a', 't', 'e', 'r', 'T', 'h', 'a', 'n']),
            TokenType::LessThan => push_all(&mut out, &['L', 'e', 's', 's', 'T', 'h', 'a', 'n']),
            TokenType::GreaterThanEquals => push_all(&mut out, &['G', 'r', 'e', 'a', 't', 'e', 'r', 'T', 'h', 'a', 'n', 'E', 'q', 'u', 'a', 'l', 's']),
            TokenType::LessThanEquals => push_all(&mut out, &['L', 'e', 's', 's', 'T', 'h', 'a', 'n', 'E', 'q', 'u', 'a', 'l', 's']),
            TokenType::LogicalAnd => push_all(&mut out, &['L', 'o', 'g', 'i', 'c', 'a', 'l', 'A', 'n', 'd']),
            TokenType::LogicalOr => push_all(&mut out, &['L', 'o', 'g', 'i', 'c', 'a', 'l', 'O', 'r']),
            TokenType::Not => push_all(&mut out, &['N', 'o', 't']),
            TokenType::RightBitShift => push_all(&mut out, &['R', 'i', 'g', 'h', 't', 'B', 'i', 't', 'S', 'h', 'i', 'f', 't']),
            TokenType::LeftBitShift => push_all(&mut out, &['L', 'e', 'f', 't', 'B', 'i', 't', 'S', 'h', 'i', 'f', 't']),
            TokenType::And => push_all(&mut out, &['A', 'n', 'd']),
            TokenType::Or => push_all(&mut out, &['O', 'r']),
            TokenType::IntegerLiteral => push_all(&mut out, &['I', 'n', 't', 'e', 'g', 'e', 'r', 'L', 'i', 't', 'e', 'r', 'a', 'l']),
            TokenType::FloatLiteral => push_all(&mut out, &['F', 'l', 'o', 'a', 't', 'L', 'i', 't', 'e', 'r', 'a', 'l']),
            TokenType::DoubleLiteral => push_all(&mut out, &['D', 'o', 'u', 'b', 'l', 'e', 'L', 'i', 't', 'e', 'r', 'a', 'l']),
            TokenType::CharLiteral => push_all(&mut out, &['C', 'h', 'a', 'r', 'L', 'i', 't', 'e', 'r', 'a', 'l']),
            TokenType::StringLiteral => push_all(&mut out, &['S', 't', 'r', 'i', 'n', 'g', 'L', 'i', 't', 'e', 'r', 'a', 'l']),
            TokenType::BoolLiteral => push_all(&mut out, &['B', 'o', 'o', 'l', 'L', 'i', 't', 'e', 'r', 'a', 'l']),
            TokenType::FnLiteral => push_all(&mut out, &['F', 'n', 'L', 'i', 't', 'e', 'r', 'a', 'l']),
            TokenType::Return => push_all(&mut out, &['R', 'e', 't', 'u', 'r', 'n']),
            TokenType::ReturnType => push_all(&mut out, &['R', 'e', 't', 'u', 'r', 'n', 'T', 'y', 'p', 'e']),
            TokenType::StructLiteral => push_all(&mut out, &['S', 't', 'r', 'u', 'c', 't', 'L', 'i', 't', 'e', 'r', 'a', 'l']),
            TokenType::WhileLoop => push_all(&mut out, &['W', 'h', 'i', 'l', 'e', 'L', 'o', 'o', 'p']),
            TokenType::Dots => push_all(&mut out, &['D', 'o', 't', 's']),
            TokenType::Unknow => push_all(&mut out, &['U', 'n', 'k', 'n', 'o', 'w']),
            TokenType::StructDef(n) => {
                push_all(&mut out, &['S', 't', 'r', 'u', 'c', 't', 'D', 'e', 'f', '(']);
                let d = debug_str(n.as_str());
                let dc = chars_of(d.as_str());
                push_all(&mut out, dc.as_slice());
                out.push(')');
            },
        }
        assert(out@ =~= token_debug(*self));
        out
    }
}

pub proof fn lemma_canon_text(t: TokenType)
    ensures
        token_text(canon(t)) == token_text(t),
        token_debug(canon(t)) == token_debug(t),
{
    lemma_canon(t);
}

pub proof fn lemma_tok_eq_canon(a: TokenType, b: TokenType)
    ensures
        tok_eq(canon(a), canon(b)) == tok_eq(a, b),
        tok_eq(canon(a), b) == tok_eq(a, b),
        tok_eq(a, canon(b)) == tok_eq(a, b),
{
    lemma_canon(a);
    lemma_canon(b);
}

} // verus!
