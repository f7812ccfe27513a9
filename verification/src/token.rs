use vstd::prelude::*;

verus! {

/// Lexical categories of the language.
///
/// The fixed keywords cover declaration (`touch grass`, `number`, `as`),
/// printing (`print`), conditionals (`go`, `outside`, `if`, `then`,
/// `instead`), block termination (`fr fr`), assignment (`set`, `to`,
/// spelled by the `Assign` and `To` variants), loops (`while`), the boolean
/// literals (`no_cap`, `cap`) and the null literal (`bugatti`).
#[derive(Debug, PartialEq, Clone)]
pub enum Token {
    // Keywords
    Print,
    TouchGrass,
    As,
    NumberType,
    Go,
    Outside,
    If,
    Then,
    Instead,
    FrFr,
    Assign,
    To,
    While,
    // Literal keywords
    NoCap,
    Cap,
    Bugatti,
    // Literals with payloads
    String(String),
    Number(i64),
    // Single-character operators
    GreaterThan,
    LessThan,
    Equals,
    Plus,
    Minus,
    // Identifiers and the rest
    Identifier(String),
    Illegal(char),
    EOF,
}

/// Mathematical model of a token: the same categories, with string payloads
/// abstracted to character sequences.
pub enum TokenModel {
    Print,
    TouchGrass,
    As,
    NumberType,
    Go,
    Outside,
    If,
    Then,
    Instead,
    FrFr,
    Assign,
    To,
    While,
    NoCap,
    Cap,
    Bugatti,
    String(Seq<char>),
    Number(i64),
    GreaterThan,
    LessThan,
    Equals,
    Plus,
    Minus,
    Identifier(Seq<char>),
    Illegal(char),
    EOF,
}

impl View for Token {
    type V = TokenModel;

    open spec fn view(&self) -> TokenModel {
        match self {
            Token::Print => TokenModel::Print,
            Token::TouchGrass => TokenModel::TouchGrass,
            Token::As => TokenModel::As,
            Token::NumberType => TokenModel::NumberType,
            Token::Go => TokenModel::Go,
            Token::Outside => TokenModel::Outside,
            Token::If => TokenModel::If,
            Token::Then => TokenModel::Then,
            Token::Instead => TokenModel::Instead,
            Token::FrFr => TokenModel::FrFr,
            Token::Assign => TokenModel::Assign,
            Token::To => TokenModel::To,
            Token::While => TokenModel::While,
            Token::NoCap => TokenModel::NoCap,
            Token::Cap => TokenModel::Cap,
            Token::Bugatti => TokenModel::Bugatti,
            Token::String(s) => TokenModel::String(s@),
            Token::Number(n) => TokenModel::Number(*n),
            Token::GreaterThan => TokenModel::GreaterThan,
            Token::LessThan => TokenModel::LessThan,
            Token::Equals => TokenModel::Equals,
            Token::Plus => TokenModel::Plus,
            Token::Minus => TokenModel::Minus,
            Token::Identifier(s) => TokenModel::Identifier(s@),
            Token::Illegal(c) => TokenModel::Illegal(*c),
            Token::EOF => TokenModel::EOF,
        }
    }
}

} // verus!
