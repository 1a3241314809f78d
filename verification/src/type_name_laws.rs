//! A type's name reads back as the type: lexing the name and reading a
//! type from its tokens gives back the type, for every type that has a
//! name in source text.

use vstd::prelude::*;
use crate::token::{Token, Lexeme};
use crate::types::{Type, ty_text};
use crate::lexer::{keyword, next_lexeme, lex_from, spec_lex, skip_run, is_skip, is_word, is_ident_start,
    ident_continues, ident_run, ident_len, number_len, string_len};
use crate::grammar::{adv, sp_type, sp_read_type};

verus! {


/// The token that the keyword for each named type's name gives.
pub open spec fn type_token(t: Type) -> Option<Token> {
    match t {
        Type::Bool => Some(Token::Bool),
        Type::String => Some(Token::String),
        Type::UInt8 => Some(Token::UInt8),
        Type::UInt16 => Some(Token::UInt16),
        Type::UInt32 => Some(Token::UInt32),
        Type::UInt64 => Some(Token::UInt64),
        Type::UInt128 => Some(Token::UInt128),
        Type::Int8 => Some(Token::Int8),
        Type::Int16 => Some(Token::Int16),
        Type::Int32 => Some(Token::Int32),
        Type::Int64 => Some(Token::Int64),
        Type::Int128 => Some(Token::Int128),
        Type::Float32 => Some(Token::Float32),
        Type::Float64 => Some(Token::Float64),
        _ => None,
    }
}

/// The length and characters of every keyword, which tell the keywords
/// apart.
pub(crate) proof fn lemma_keyword_texts()
    ensures
        "asm"@.len() == 3,
        "asm"@[0] == 'a',
        "asm"@[1] == 's',
        "asm"@[2] == 'm',
        "import"@.len() == 6,
        "import"@[0] == 'i',
        "import"@[1] == 'm',
        "import"@[2] == 'p',
        "import"@[3] == 'o',
        "import"@[4] == 'r',
        "import"@[5] == 't',
        "decl"@.len() == 4,
        "decl"@[0] == 'd',
        "decl"@[1] == 'e',
        "decl"@[2] == 'c',
        "decl"@[3] == 'l',
        "assign"@.len() == 6,
        "assign"@[0] == 'a',
        "assign"@[1] == 's',
        "assign"@[2] == 's',
        "assign"@[3] == 'i',
        "assign"@[4] == 'g',
        "assign"@[5] == 'n',
        "fn"@.len() == 2,
        "fn"@[0] == 'f',
        "fn"@[1] == 'n',
        "ret"@.len() == 3,
        "ret"@[0] == 'r',
        "ret"@[1] == 'e',
        "ret"@[2] == 't',
        "label"@.len() == 5,
        "label"@[0] == 'l',
        "label"@[1] == 'a',
        "label"@[2] == 'b',
        "label"@[3] == 'e',
        "label"@[4] == 'l',
        "jump"@.len() == 4,
        "jump"@[0] == 'j',
        "jump"@[1] == 'u',
        "jump"@[2] == 'm',
        "jump"@[3] == 'p',
        "neg"@.len() == 3,
        "neg"@[0] == 'n',
        "neg"@[1] == 'e',
        "neg"@[2] == 'g',
        "not"@.len() == 3,
        "not"@[0] == 'n',
        "not"@[1] == 'o',
        "not"@[2] == 't',
        "ref"@.len() == 3,
        "ref"@[0] == 'r',
        "ref"@[1] == 'e',
        "ref"@[2] == 'f',
        "deref"@.len() == 5,
        "deref"@[0] == 'd',
        "deref"@[1] == 'e',
        "deref"@[2] == 'r',
        "deref"@[3] == 'e',
        "deref"@[4] == 'f',
        "lsh"@.len() == 3,
        "lsh"@[0] == 'l',
        "lsh"@[1] == 's',
        "lsh"@[2] == 'h',
        "rsh"@.len() == 3,
        "rsh"@[0] == 'r',
        "rsh"@[1] == 's',
        "rsh"@[2] == 'h',
        "add"@.len() == 3,
        "add"@[0] == 'a',
        "add"@[1] == 'd',
        "add"@[2] == 'd',
        "sub"@.len() == 3,
        "sub"@[0] == 's',
        "sub"@[1] == 'u',
        "sub"@[2] == 'b',
        "mult"@.len() == 4,
        "mult"@[0] == 'm',
        "mult"@[1] == 'u',
        "mult"@[2] == 'l',
        "mult"@[3] == 't',
        "div"@.len() == 3,
        "div"@[0] == 'd',
        "div"@[1] == 'i',
        "div"@[2] == 'v',
        "and"@.len() == 3,
        "and"@[0] == 'a',
        "and"@[1] == 'n',
        "and"@[2] == 'd',
        "or"@.len() == 2,
        "or"@[0] == 'o',
        "or"@[1] == 'r',
        "xor"@.len() == 3,
        "xor"@[0] == 'x',
        "xor"@[1] == 'o',
        "xor"@[2] == 'r',
        "bool"@.len() == 4,
        "bool"@[0] == 'b',
        "bool"@[1] == 'o',
        "bool"@[2] == 'o',
        "bool"@[3] == 'l',
        "string"@.len() == 6,
        "string"@[0] == 's',
        "string"@[1] == 't',
        "string"@[2] == 'r',
        "string"@[3] == 'i',
        "string"@[4] == 'n',
        "string"@[5] == 'g',
        "uint8"@.len() == 5,
        "uint8"@[0] == 'u',
        "uint8"@[1] == 'i',
        "uint8"@[2] == 'n',
        "uint8"@[3] == 't',
        "uint8"@[4] == '8',
        "uint16"@.len() == 6,
        "uint16"@[0] == 'u',
        "uint16"@[1] == 'i',
        "uint16"@[2] == 'n',
        "uint16"@[3] == 't',
        "uint16"@[4] == '1',
        "uint16"@[5] == '6',
        "uint32"@.len() == 6,
        "uint32"@[0] == 'u',
        "uint32"@[1] == 'i',
        "uint32"@[2] == 'n',
        "uint32"@[3] == 't',
        "uint32"@[4] == '3',
        "uint32"@[5] == '2',
        "uint64"@.len() == 6,
        "uint64"@[0] == 'u',
        "uint64"@[1] == 'i',
        "uint64"@[2] == 'n',
        "uint64"@[3] == 't',
        "uint64"@[4] == '6',
        "uint64"@[5] == '4',
        "uint128"@.len() == 7,
        "uint128"@[0] == 'u',
        "uint128"@[1] == 'i',
        "uint128"@[2] == 'n',
        "uint128"@[3] == 't',
        "uint128"@[4] == '1',
        "uint128"@[5] == '2',
        "uint128"@[6] == '8',
        "int8"@.len() == 4,
        "int8"@[0] == 'i',
        "int8"@[1] == 'n',
        "int8"@[2] == 't',
        "int8"@[3] == '8',
        "int16"@.len() == 5,
        "int16"@[0] == 'i',
        "int16"@[1] == 'n',
        "int16"@[2] == 't',
        "int16"@[3] == '1',
        "int16"@[4] == '6',
        "int32"@.len() == 5,
        "int32"@[0] == 'i',
        "int32"@[1] == 'n',
        "int32"@[2] == 't',
        "int32"@[3] == '3',
        "int32"@[4] == '2',
        "int64"@.len() == 5,
        "int64"@[0] == 'i',
        "int64"@[1] == 'n',
        "int64"@[2] == 't',
        "int64"@[3] == '6',
        "int64"@[4] == '4',
        "int128"@.len() == 6,
        "int128"@[0] == 'i',
        "int128"@[1] == 'n',
        "int128"@[2] == 't',
        "int128"@[3] == '1',
        "int128"@[4] == '2',
        "int128"@[5] == '8',
        "float32"@.len() == 7,
        "float32"@[0] == 'f',
        "float32"@[1] == 'l',
        "float32"@[2] == 'o',
        "float32"@[3] == 'a',
        "float32"@[4] == 't',
        "float32"@[5] == '3',
        "float32"@[6] == '2',
        "float64"@.len() == 7,
        "float64"@[0] == 'f',
        "float64"@[1] == 'l',
        "float64"@[2] == 'o',
        "float64"@[3] == 'a',
        "float64"@[4] == 't',
        "float64"@[5] == '6',
        "float64"@[6] == '4',
        "true"@.len() == 4,
        "true"@[0] == 't',
        "true"@[1] == 'r',
        "true"@[2] == 'u',
        "true"@[3] == 'e',
        "false"@.len() == 5,
        "false"@[0] == 'f',
        "false"@[1] == 'a',
        "false"@[2] == 'l',
        "false"@[3] == 's',
        "false"@[4] == 'e',
{
    reveal_strlit("asm");
    reveal_strlit("import");
    reveal_strlit("decl");
    reveal_strlit("assign");
    reveal_strlit("fn");
    reveal_strlit("ret");
    reveal_strlit("label");
    reveal_strlit("jump");
    reveal_strlit("neg");
    reveal_strlit("not");
    reveal_strlit("ref");
    reveal_strlit("deref");
    reveal_strlit("lsh");
    reveal_strlit("rsh");
    reveal_strlit("add");
    reveal_strlit("sub");
    reveal_strlit("mult");
    reveal_strlit("div");
    reveal_strlit("and");
    reveal_strlit("or");
    reveal_strlit("xor");
    reveal_strlit("bool");
    reveal_strlit("string");
    reveal_strlit("uint8");
    reveal_strlit("uint16");
    reveal_strlit("uint32");
    reveal_strlit("uint64");
    reveal_strlit("uint128");
    reveal_strlit("int8");
    reveal_strlit("int16");
    reveal_strlit("int32");
    reveal_strlit("int64");
    reveal_strlit("int128");
    reveal_strlit("float32");
    reveal_strlit("float64");
    reveal_strlit("true");
    reveal_strlit("false");
}

/// The name of every type that has a keyword lexes to that keyword.
pub proof fn lemma_type_keywords(t: Type)
    ensures
        type_token(t) matches Some(k) ==> keyword(ty_text(t)) == Some(k),
{
    reveal(keyword);
    lemma_keyword_texts();
}

/// The name of every type that has a keyword is a word: it starts with a
/// letter and holds letters and digits only.
proof fn lemma_word_chars(t: Type)
    requires
        type_token(t) is Some,
    ensures
        ty_text(t).len() >= 1,
        is_ident_start(ty_text(t)[0]),
        forall|i: int| 0 <= i < ty_text(t).len() ==> is_word(#[trigger] ty_text(t)[i]),
{
    lemma_keyword_texts();
    match t {
        Type::Bool => {
            assert forall|i: int| 0 <= i < 4 implies is_word(#[trigger] "bool"@[i]) by {
                assert(i == 0 || i == 1 || i == 2 || i == 3);
            }
        },
        Type::String => {
            assert forall|i: int| 0 <= i < 6 implies is_word(#[trigger] "string"@[i]) by {
                assert(i == 0 || i == 1 || i == 2 || i == 3 || i == 4 || i == 5);
            }
        },
        Type::UInt8 => {
            assert forall|i: int| 0 <= i < 5 implies is_word(#[trigger] "uint8"@[i]) by {
                assert(i == 0 || i == 1 || i == 2 || i == 3 || i == 4);
            }
        },
        Type::UInt16 => {
            assert forall|i: int| 0 <= i < 6 implies is_word(#[trigger] "uint16"@[i]) by {
                assert(i == 0 || i == 1 || i == 2 || i == 3 || i == 4 || i == 5);
            }
        },
        Type::UInt32 => {
            assert forall|i: int| 0 <= i < 6 implies is_word(#[trigger] "uint32"@[i]) by {
                assert(i == 0 || i == 1 || i == 2 || i == 3 || i == 4 || i == 5);
            }
        },
        Type::UInt64 => {
            assert forall|i: int| 0 <= i < 6 implies is_word(#[trigger] "uint64"@[i]) by {
                assert(i == 0 || i == 1 || i == 2 || i == 3 || i == 4 || i == 5);
            }
        },
        Type::UInt128 => {
            assert forall|i: int| 0 <= i < 7 implies is_word(#[trigger] "uint128"@[i]) by {
                assert(i == 0 || i == 1 || i == 2 || i == 3 || i == 4 || i == 5 || i == 6);
            }
        },
        Type::Int8 => {
            assert forall|i: int| 0 <= i < 4 implies is_word(#[trigger] "int8"@[i]) by {
                assert(i == 0 || i == 1 || i == 2 || i == 3);
            }
        },
        Type::Int16 => {
            assert forall|i: int| 0 <= i < 5 implies is_word(#[trigger] "int16"@[i]) by {
                assert(i == 0 || i == 1 || i == 2 || i == 3 || i == 4);
            }
        },
        Type::Int32 => {
            assert forall|i: int| 0 <= i < 5 implies is_word(#[trigger] "int32"@[i]) by {
                assert(i == 0 || i == 1 || i == 2 || i == 3 || i == 4);
            }
        },
        Type::Int64 => {
            assert forall|i: int| 0 <= i < 5 implies is_word(#[trigger] "int64"@[i]) by {
                assert(i == 0 || i == 1 || i == 2 || i == 3 || i == 4);
            }
        },
        Type::Int128 => {
            assert forall|i: int| 0 <= i < 6 implies is_word(#[trigger] "int128"@[i]) by {
                assert(i == 0 || i == 1 || i == 2 || i == 3 || i == 4 || i == 5);
            }
        },
        Type::Float32 => {
            assert forall|i: int| 0 <= i < 7 implies is_word(#[trigger] "float32"@[i]) by {
                assert(i == 0 || i == 1 || i == 2 || i == 3 || i == 4 || i == 5 || i == 6);
            }
        },
        Type::Float64 => {
            assert forall|i: int| 0 <= i < 7 implies is_word(#[trigger] "float64"@[i]) by {
                assert(i == 0 || i == 1 || i == 2 || i == 3 || i == 4 || i == 5 || i == 6);
            }
        },
        _ => {},
    }
}

/// Whether `t` has a name in source text: no label or undeclared type
/// inside.
pub open spec fn named(t: Type) -> bool
    decreases t,
{
    match t {
        Type::Ptr(inner) => named(*inner),
        _ => type_token(t) is Some,
    }
}

/// The tokens of a type's name that starts at `off`.
pub open spec fn type_lexemes(t: Type, off: nat) -> Seq<Lexeme>
    decreases t,
{
    match t {
        Type::Ptr(inner) => seq![Lexeme { token: Token::Ptr, start: off as usize, end: (off + 1) as usize }]
            + type_lexemes(*inner, off + 1),
        _ => seq![Lexeme { token: type_token(t).unwrap(), start: off as usize, end: (off + ty_text(t).len()) as usize }],
    }
}

proof fn lemma_ident_run_words(s: Seq<char>, p: int)
    requires
        0 <= p <= s.len(),
        forall|i: int| p <= i < s.len() ==> is_word(#[trigger] s[i]),
    ensures
        ident_run(s, p) == s.len() - p,
    decreases s.len() - p,
{
    if p < s.len() {
        assert(is_word(s[p]));
        lemma_ident_run_words(s, p + 1);
    }
}

/// Lexing a type's name, after any text, gives the name's tokens.
proof fn lemma_lex_type_name(pre: Seq<char>, t: Type)
    requires
        named(t),
        pre.len() + ty_text(t).len() <= usize::MAX,
    ensures
        lex_from(pre + ty_text(t), pre.len() as int) == type_lexemes(t, pre.len()),
    decreases t,
{
    let s = pre + ty_text(t);
    let p = pre.len() as int;
    reveal(next_lexeme);
    match t {
        Type::Ptr(inner) => {
            reveal_strlit("*");
            assert(ty_text(t) == "*"@ + ty_text(*inner));
            let pre2 = pre + "*"@;
            assert(s =~= pre2 + ty_text(*inner));
            assert(s[p] == '*');
            assert(skip_run(s, p) == 0);
            lemma_lex_type_name(pre2, *inner);
            assert(pre2.len() == p + 1);
        },
        _ => {
            let w = ty_text(t);
            lemma_word_chars(t);
            lemma_type_keywords(t);
            assert(s[p] == w[0]);
            assert(!is_skip(s[p]));
            assert(skip_run(s, p) == 0);
            assert forall|i: int| p + 1 <= i < s.len() implies is_word(#[trigger] s[i]) by {
                assert(s[i] == w[i - p]);
            }
            lemma_ident_run_words(s, p + 1);
            assert(ident_len(s, p) == w.len());
            assert(s.subrange(p, p + w.len()) =~= w);
            assert(lex_from(s, p + w.len()) == Seq::<Lexeme>::empty());
        },
    }
}

/// Reading a type from the tokens of its name, after any tokens, gives
/// back the type and reaches the end of the tokens.
proof fn lemma_read_type_tokens(toks: Seq<Lexeme>, pos: nat, t: Type, off: nat, line: nat)
    requires
        named(t),
        toks.len() == pos + type_lexemes(t, off).len(),
        forall|i: int| 0 <= i < type_lexemes(t, off).len() ==> toks[pos + i] == #[trigger] type_lexemes(t, off)[i],
    ensures
        sp_read_type(toks, pos, line) == Ok::<(Type, nat), Seq<char>>((t, toks.len() as nat)),
    decreases t,
{
    let l = type_lexemes(t, off);
    assert(toks[pos as int] == l[0]);
    match t {
        Type::Ptr(inner) => {
            let l2 = type_lexemes(*inner, off + 1);
            assert forall|i: int| 0 <= i < l2.len() implies toks[pos + 1 + i] == #[trigger] l2[i] by {
                assert(l[i + 1] == l2[i]);
            }
            lemma_read_type_tokens(toks, pos + 1, *inner, off + 1, line);
            assert(l2.len() >= 1) by {
                reveal_with_fuel(type_lexemes, 2);
            }
        },
        _ => {},
    }
}

/// Lexing the name of a type that has one and reading a type from its
/// tokens gives back the type, with every token read.
pub proof fn lemma_type_name_reads_back(t: Type, line: nat)
    requires
        named(t),
        ty_text(t).len() <= usize::MAX,
    ensures
        sp_read_type(spec_lex(ty_text(t)), 0, line) == Ok::<(Type, nat), Seq<char>>((t, spec_lex(ty_text(t)).len() as nat)),
{
    let e = Seq::<char>::empty();
    assert(e + ty_text(t) =~= ty_text(t));
    lemma_lex_type_name(e, t);
    lemma_read_type_tokens(spec_lex(ty_text(t)), 0, t, 0, line);
}

} // verus!
