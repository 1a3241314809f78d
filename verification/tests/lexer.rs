use lib::lexer::{lex, tokenize};
use lib::token::{Lexeme, Token};

fn lx(token: Token, start: usize, end: usize) -> Lexeme {
    Lexeme { token, start, end }
}

fn kinds(src: &str) -> Vec<Token> {
    tokenize(src).iter().map(|l| l.token).collect()
}

#[test]
fn declaration_line() {
    assert_eq!(
        tokenize("decl uint8 x 5\n"),
        vec![
            lx(Token::Decl, 0, 4),
            lx(Token::UInt8, 5, 10),
            lx(Token::Identifier, 11, 12),
            lx(Token::Number, 13, 14),
            lx(Token::Newline, 14, 15),
        ]
    );
}

#[test]
fn identifiers_numbers_strings_and_errors() {
    assert_eq!(
        tokenize("a.b a. -12.5 \"s t\" @"),
        vec![
            lx(Token::Identifier, 0, 3),
            lx(Token::Identifier, 4, 5),
            lx(Token::Error, 5, 6),
            lx(Token::Number, 7, 12),
            lx(Token::StringLiteral, 13, 18),
            lx(Token::Error, 19, 20),
        ]
    );
}

#[test]
fn longest_match_and_keywords() {
    assert_eq!(tokenize("declx decl"), vec![lx(Token::Identifier, 0, 5), lx(Token::Decl, 6, 10)]);
    assert_eq!(tokenize("*uint8"), vec![lx(Token::Ptr, 0, 1), lx(Token::UInt8, 1, 6)]);
    assert_eq!(tokenize("5abc"), vec![lx(Token::Number, 0, 1), lx(Token::Identifier, 1, 4)]);
    assert_eq!(tokenize("1."), vec![lx(Token::Number, 0, 1), lx(Token::Error, 1, 2)]);
    assert_eq!(tokenize("-x"), vec![lx(Token::Error, 0, 1), lx(Token::Identifier, 1, 2)]);
    assert_eq!(tokenize("_a9.b_2.c"), vec![lx(Token::Identifier, 0, 9)]);
}

#[test]
fn every_keyword() {
    assert_eq!(
        kinds("asm import decl assign fn ret label jump neg not ref deref lsh rsh add sub mult div and or xor"),
        vec![
            Token::Asm,
            Token::Import,
            Token::Decl,
            Token::Assign,
            Token::Fn,
            Token::Ret,
            Token::Label,
            Token::Jump,
            Token::Neg,
            Token::Not,
            Token::Ref,
            Token::Deref,
            Token::Lsh,
            Token::Rsh,
            Token::Add,
            Token::Sub,
            Token::Mult,
            Token::Div,
            Token::And,
            Token::Or,
            Token::Xor,
        ]
    );
    assert_eq!(
        kinds("bool string uint8 uint16 uint32 uint64 uint128 int8 int16 int32 int64 int128 float32 float64 true false"),
        vec![
            Token::Bool,
            Token::String,
            Token::UInt8,
            Token::UInt16,
            Token::UInt32,
            Token::UInt64,
            Token::UInt128,
            Token::Int8,
            Token::Int16,
            Token::Int32,
            Token::Int64,
            Token::Int128,
            Token::Float32,
            Token::Float64,
            Token::True,
            Token::False,
        ]
    );
}

#[test]
fn skipped_and_unskipped_whitespace() {
    assert_eq!(tokenize("\t\x0cret"), vec![lx(Token::Ret, 2, 5)]);
    assert_eq!(tokenize("\r\n"), vec![lx(Token::Error, 0, 1), lx(Token::Newline, 1, 2)]);
    assert_eq!(tokenize(""), vec![]);
    assert_eq!(tokenize("   "), vec![]);
}

#[test]
fn unterminated_string() {
    assert_eq!(tokenize("\"open"), vec![lx(Token::Error, 0, 1), lx(Token::Identifier, 1, 5)]);
    assert_eq!(tokenize("\"\""), vec![lx(Token::StringLiteral, 0, 2)]);
    assert_eq!(tokenize("\"a\nb\""), vec![lx(Token::StringLiteral, 0, 5)]);
}

#[test]
fn lex_on_characters_agrees() {
    let src = "fn int32 f int8 a\nret a\n";
    let chars: Vec<char> = src.chars().collect();
    assert_eq!(lex(&chars), tokenize(src));
}

#[test]
fn tokens_cover_the_text() {
    let src = "  decl\t*uint8 p q\n\nfoo.bar r \"x y\" 3.25 -7 @ ok  ";
    let chars: Vec<char> = src.chars().collect();
    let toks = tokenize(src);
    let skippable = |c: char| c == ' ' || c == '\t' || c == '\x0c';
    let mut at = 0usize;
    for t in &toks {
        assert!(t.start < t.end && t.end <= chars.len());
        assert!(at <= t.start);
        assert!(chars[at..t.start].iter().all(|c| skippable(*c)));
        at = t.end;
    }
    assert!(chars[at..].iter().all(|c| skippable(*c)));
    assert!(toks.len() <= chars.len());
}
