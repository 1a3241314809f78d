//! The lexer: splits source text into tokens by longest match.
//!
//! Spaces, tabs and form feeds between tokens are skipped. At each position
//! the longest token wins; a keyword wins over an identifier of the same
//! text. Identifiers are `[_a-zA-Z][_a-zA-Z0-9]*(\.[_a-zA-Z0-9]+)*`,
//! numbers `-?[0-9]+(\.[0-9]+)?`, string literals `"[^"]*"`. A character
//! that starts no token becomes one `Error` token of that one character.

use vstd::prelude::*;
use crate::token::{Token, Lexeme};
use crate::text::chars_of;

verus! {

pub open spec fn is_skip(c: char) -> bool {
    c == ' ' || c == '\t' || c == '\x0c'
}

pub open spec fn is_digit(c: char) -> bool {
    '0' <= c <= '9'
}

pub open spec fn is_alpha(c: char) -> bool {
    ('a' <= c <= 'z') || ('A' <= c <= 'Z')
}

pub open spec fn is_ident_start(c: char) -> bool {
    c == '_' || is_alpha(c)
}

pub open spec fn is_word(c: char) -> bool {
    c == '_' || is_alpha(c) || is_digit(c)
}

/// The number of skippable characters from `p` on.
pub open spec fn skip_run(s: Seq<char>, p: int) -> int
    decreases s.len() - p,
{
    if 0 <= p < s.len() && is_skip(s[p]) {
        1 + skip_run(s, p + 1)
    } else {
        0
    }
}

/// The number of digits from `p` on.
pub open spec fn digit_run(s: Seq<char>, p: int) -> int
    decreases s.len() - p,
{
    if 0 <= p < s.len() && is_digit(s[p]) {
        1 + digit_run(s, p + 1)
    } else {
        0
    }
}

/// Whether an identifier that reached `p` goes on at `p`: with a word
/// character, or with a `.` that a word character follows.
pub open spec fn ident_continues(s: Seq<char>, p: int) -> bool {
    0 <= p < s.len() && (is_word(s[p]) || (s[p] == '.' && p + 1 < s.len() && is_word(s[p + 1])))
}

/// The number of characters from `p` on by which an identifier goes on.
pub open spec fn ident_run(s: Seq<char>, p: int) -> int
    decreases s.len() - p,
{
    if ident_continues(s, p) {
        1 + ident_run(s, p + 1)
    } else {
        0
    }
}

/// The number of characters other than `"` from `p` on.
pub open spec fn nonquote_run(s: Seq<char>, p: int) -> int
    decreases s.len() - p,
{
    if 0 <= p < s.len() && s[p] != '"' {
        1 + nonquote_run(s, p + 1)
    } else {
        0
    }
}

/// The length of the identifier that starts at `p`, or 0.
pub open spec fn ident_len(s: Seq<char>, p: int) -> int {
    if 0 <= p < s.len() && is_ident_start(s[p]) {
        1 + ident_run(s, p + 1)
    } else {
        0
    }
}

/// The length of the number that starts at `p`, or 0.
pub open spec fn number_len(s: Seq<char>, p: int) -> int {
    let q = if 0 <= p < s.len() && s[p] == '-' { p + 1 } else { p };
    let d = digit_run(s, q);
    if d == 0 {
        0
    } else {
        let e = q + d;
        if e + 1 < s.len() && s[e] == '.' && is_digit(s[e + 1]) {
            (e - p) + 1 + digit_run(s, e + 1)
        } else {
            e - p
        }
    }
}

/// The length of the string literal that starts at `p`, or 0.
pub open spec fn string_len(s: Seq<char>, p: int) -> int {
    if 0 <= p < s.len() && s[p] == '"' {
        let n = nonquote_run(s, p + 1);
        if p + 1 + n < s.len() {
            n + 2
        } else {
            0
        }
    } else {
        0
    }
}

/// The keyword or type name spelled by `w`, if any.
#[verifier::opaque]
pub open spec fn keyword(w: Seq<char>) -> Option<Token> {
    if w == "asm"@ { Some(Token::Asm) }
    else if w == "import"@ { Some(Token::Import) }
    else if w == "decl"@ { Some(Token::Decl) }
    else if w == "assign"@ { Some(Token::Assign) }
    else if w == "fn"@ { Some(Token::Fn) }
    else if w == "ret"@ { Some(Token::Ret) }
    else if w == "label"@ { Some(Token::Label) }
    else if w == "jump"@ { Some(Token::Jump) }
    else if w == "neg"@ { Some(Token::Neg) }
    else if w == "not"@ { Some(Token::Not) }
    else if w == "ref"@ { Some(Token::Ref) }
    else if w == "deref"@ { Some(Token::Deref) }
    else if w == "lsh"@ { Some(Token::Lsh) }
    else if w == "rsh"@ { Some(Token::Rsh) }
    else if w == "add"@ { Some(Token::Add) }
    else if w == "sub"@ { Some(Token::Sub) }
    else if w == "mult"@ { Some(Token::Mult) }
    else if w == "div"@ { Some(Token::Div) }
    else if w == "and"@ { Some(Token::And) }
    else if w == "or"@ { Some(Token::Or) }
    else if w == "xor"@ { Some(Token::Xor) }
    else if w == "bool"@ { Some(Token::Bool) }
    else if w == "string"@ { Some(Token::String) }
    else if w == "uint8"@ { Some(Token::UInt8) }
    else if w == "uint16"@ { Some(Token::UInt16) }
    else if w == "uint32"@ { Some(Token::UInt32) }
    else if w == "uint64"@ { Some(Token::UInt64) }
    else if w == "uint128"@ { Some(Token::UInt128) }
    else if w == "int8"@ { Some(Token::Int8) }
    else if w == "int16"@ { Some(Token::Int16) }
    else if w == "int32"@ { Some(Token::Int32) }
    else if w == "int64"@ { Some(Token::Int64) }
    else if w == "int128"@ { Some(Token::Int128) }
    else if w == "float32"@ { Some(Token::Float32) }
    else if w == "float64"@ { Some(Token::Float64) }
    else if w == "true"@ { Some(Token::True) }
    else if w == "false"@ { Some(Token::False) }
    else { None }
}

/// The token that starts at `p`, which holds no skippable character.
#[verifier::opaque]
pub open spec fn next_lexeme(s: Seq<char>, p: int) -> Lexeme {
    let c = s[p];
    if c == '\n' {
        Lexeme { token: Token::Newline, start: p as usize, end: (p + 1) as usize }
    } else if c == '*' {
        Lexeme { token: Token::Ptr, start: p as usize, end: (p + 1) as usize }
    } else if ident_len(s, p) > 0 {
        let n = ident_len(s, p);
        let t = match keyword(s.subrange(p, p + n)) {
            Some(k) => k,
            None => Token::Identifier,
        };
        Lexeme { token: t, start: p as usize, end: (p + n) as usize }
    } else if number_len(s, p) > 0 {
        Lexeme { token: Token::Number, start: p as usize, end: (p + number_len(s, p)) as usize }
    } else if string_len(s, p) > 0 {
        Lexeme { token: Token::StringLiteral, start: p as usize, end: (p + string_len(s, p)) as usize }
    } else {
        Lexeme { token: Token::Error, start: p as usize, end: (p + 1) as usize }
    }
}

pub proof fn lemma_skip_run_bound(s: Seq<char>, p: int)
    ensures
        0 <= skip_run(s, p),
        0 <= p <= s.len() ==> p + skip_run(s, p) <= s.len(),
    decreases s.len() - p,
{
    if 0 <= p < s.len() && is_skip(s[p]) {
        lemma_skip_run_bound(s, p + 1);
    }
}

pub proof fn lemma_digit_run_bound(s: Seq<char>, p: int)
    ensures
        0 <= digit_run(s, p),
        0 <= p <= s.len() ==> p + digit_run(s, p) <= s.len(),
        forall|i: int| p <= i < p + digit_run(s, p) ==> is_digit(#[trigger] s[i]),
    decreases s.len() - p,
{
    if 0 <= p < s.len() && is_digit(s[p]) {
        lemma_digit_run_bound(s, p + 1);
    }
}

pub proof fn lemma_ident_run_bound(s: Seq<char>, p: int)
    ensures
        0 <= ident_run(s, p),
        0 <= p <= s.len() ==> p + ident_run(s, p) <= s.len(),
    decreases s.len() - p,
{
    if ident_continues(s, p) {
        lemma_ident_run_bound(s, p + 1);
    }
}

pub proof fn lemma_nonquote_run_bound(s: Seq<char>, p: int)
    ensures
        0 <= nonquote_run(s, p),
        0 <= p <= s.len() ==> p + nonquote_run(s, p) <= s.len(),
    decreases s.len() - p,
{
    if 0 <= p < s.len() && s[p] != '"' {
        lemma_nonquote_run_bound(s, p + 1);
    }
}

/// The token at `p` is not empty and lies within the text.
pub proof fn lemma_next_lexeme_bounds(s: Seq<char>, p: int)
    requires
        0 <= p < s.len(),
        s.len() <= usize::MAX,
    ensures
        next_lexeme(s, p).start == p,
        p < next_lexeme(s, p).end <= s.len(),
{
    reveal(next_lexeme);
    lemma_ident_run_bound(s, p + 1);
    let q = if s[p] == '-' { p + 1 } else { p };
    lemma_digit_run_bound(s, q);
    let e = q + digit_run(s, q);
    lemma_digit_run_bound(s, e + 1);
    lemma_nonquote_run_bound(s, p + 1);
}

/// The tokens of `s` from position `p` on.
pub open spec fn lex_from(s: Seq<char>, p: int) -> Seq<Lexeme>
    decreases s.len() - p,
{
    if 0 <= p < s.len() && s.len() <= usize::MAX {
        let q = p + skip_run(s, p);
        if q < s.len() {
            let t = next_lexeme(s, q);
            proof {
                lemma_skip_run_bound(s, p);
                lemma_next_lexeme_bounds(s, q);
            }
            seq![t] + lex_from(s, t.end as int)
        } else {
            Seq::empty()
        }
    } else {
        Seq::empty()
    }
}

/// The tokens of `s`.
pub open spec fn spec_lex(s: Seq<char>) -> Seq<Lexeme> {
    lex_from(s, 0)
}

fn is_skip_char(c: char) -> (b: bool)
    ensures
        b == is_skip(c),
{
    c == ' ' || c == '\t' || c == '\x0c'
}

fn is_digit_char(c: char) -> (b: bool)
    ensures
        b == is_digit(c),
{
    '0' <= c && c <= '9'
}

fn is_word_char(c: char) -> (b: bool)
    ensures
        b == is_word(c),
{
    c == '_' || ('a' <= c && c <= 'z') || ('A' <= c && c <= 'Z') || ('0' <= c && c <= '9')
}

fn is_ident_start_char(c: char) -> (b: bool)
    ensures
        b == is_ident_start(c),
{
    c == '_' || ('a' <= c && c <= 'z') || ('A' <= c && c <= 'Z')
}

fn skip_end(s: &Vec<char>, p: usize) -> (e: usize)
    requires
        p <= s.len(),
    ensures
        e == p + skip_run(s@, p as int),
{
    let mut i = p;
    while i < s.len() && is_skip_char(s[i])
        invariant
            p <= i <= s.len(),
            skip_run(s@, p as int) == (i - p) + skip_run(s@, i as int),
        decreases s.len() - i,
    {
        i = i + 1;
    }
    i
}

fn digit_end(s: &Vec<char>, p: usize) -> (e: usize)
    requires
        p <= s.len(),
    ensures
        e == p + digit_run(s@, p as int),
{
    let mut i = p;
    while i < s.len() && is_digit_char(s[i])
        invariant
            p <= i <= s.len(),
            digit_run(s@, p as int) == (i - p) + digit_run(s@, i as int),
        decreases s.len() - i,
    {
        i = i + 1;
    }
    i
}

fn ident_end(s: &Vec<char>, p: usize) -> (e: usize)
    requires
        p <= s.len(),
    ensures
        e == p + ident_run(s@, p as int),
{
    let mut i = p;
    while i < s.len() && (is_word_char(s[i]) || (s[i] == '.' && i + 1 < s.len() && is_word_char(s[i + 1])))
        invariant
            p <= i <= s.len(),
            ident_run(s@, p as int) == (i - p) + ident_run(s@, i as int),
        decreases s.len() - i,
    {
        i = i + 1;
    }
    i
}

fn nonquote_end(s: &Vec<char>, p: usize) -> (e: usize)
    requires
        p <= s.len(),
    ensures
        e == p + nonquote_run(s@, p as int),
{
    let mut i = p;
    while i < s.len() && s[i] != '"'
        invariant
            p <= i <= s.len(),
            nonquote_run(s@, p as int) == (i - p) + nonquote_run(s@, i as int),
        decreases s.len() - i,
    {
        i = i + 1;
    }
    i
}

/// Whether `s[start..end]` spells `w`.
fn spells(s: &Vec<char>, start: usize, end: usize, w: &str) -> (b: bool)
    requires
        start <= end <= s.len(),
    ensures
        b == (s@.subrange(start as int, end as int) == w@),
{
    let wc = chars_of(w);
    if wc.len() != end - start {
        assert(s@.subrange(start as int, end as int).len() != w@.len());
        return false;
    }
    let mut i: usize = 0;
    while i < wc.len()
        invariant
            wc@ == w@,
            wc.len() == end - start,
            start <= end <= s.len(),
            i <= wc.len(),
            forall|j: int| 0 <= j < i ==> s@[start + j] == wc@[j],
        decreases wc.len() - i,
    {
        if s[start + i] != wc[i] {
            assert(s@.subrange(start as int, end as int)[i as int] != w@[i as int]);
            return false;
        }
        i = i + 1;
    }
    assert(s@.subrange(start as int, end as int) =~= w@);
    true
}

/// The keyword spelled by `s[start..end]`, if any.
fn keyword_at(s: &Vec<char>, start: usize, end: usize) -> (k: Option<Token>)
    requires
        start <= end <= s.len(),
    ensures
        k == keyword(s@.subrange(start as int, end as int)),
{
    reveal(keyword);
    if spells(s, start, end, "asm") { Some(Token::Asm) }
    else if spells(s, start, end, "import") { Some(Token::Import) }
    else if spells(s, start, end, "decl") { Some(Token::Decl) }
    else if spells(s, start, end, "assign") { Some(Token::Assign) }
    else if spells(s, start, end, "fn") { Some(Token::Fn) }
    else if spells(s, start, end, "ret") { Some(Token::Ret) }
    else if spells(s, start, end, "label") { Some(Token::Label) }
    else if spells(s, start, end, "jump") { Some(Token::Jump) }
    else if spells(s, start, end, "neg") { Some(Token::Neg) }
    else if spells(s, start, end, "not") { Some(Token::Not) }
    else if spells(s, start, end, "ref") { Some(Token::Ref) }
    else if spells(s, start, end, "deref") { Some(Token::Deref) }
    else if spells(s, start, end, "lsh") { Some(Token::Lsh) }
    else if spells(s, start, end, "rsh") { Some(Token::Rsh) }
    else if spells(s, start, end, "add") { Some(Token::Add) }
    else if spells(s, start, end, "sub") { Some(Token::Sub) }
    else if spells(s, start, end, "mult") { Some(Token::Mult) }
    else if spells(s, start, end, "div") { Some(Token::Div) }
    else if spells(s, start, end, "and") { Some(Token::And) }
    else if spells(s, start, end, "or") { Some(Token::Or) }
    else if spells(s, start, end, "xor") { Some(Token::Xor) }
    else if spells(s, start, end, "bool") { Some(Token::Bool) }
    else if spells(s, start, end, "string") { Some(Token::String) }
    else if spells(s, start, end, "uint8") { Some(Token::UInt8) }
    else if spells(s, start, end, "uint16") { Some(Token::UInt16) }
    else if spells(s, start, end, "uint32") { Some(Token::UInt32) }
    else if spells(s, start, end, "uint64") { Some(Token::UInt64) }
    else if spells(s, start, end, "uint128") { Some(Token::UInt128) }
    else if spells(s, start, end, "int8") { Some(Token::Int8) }
    else if spells(s, start, end, "int16") { Some(Token::Int16) }
    else if spells(s, start, end, "int32") { Some(Token::Int32) }
    else if spells(s, start, end, "int64") { Some(Token::Int64) }
    else if spells(s, start, end, "int128") { Some(Token::Int128) }
    else if spells(s, start, end, "float32") { Some(Token::Float32) }
    else if spells(s, start, end, "float64") { Some(Token::Float64) }
    else if spells(s, start, end, "true") { Some(Token::True) }
    else if spells(s, start, end, "false") { Some(Token::False) }
    else { None }
}

/// The token at `p`, which holds no skippable character.
fn lexeme_at(s: &Vec<char>, p: usize) -> (t: Lexeme)
    requires
        p < s.len(),
    ensures
        t == next_lexeme(s@, p as int),
{
    reveal(next_lexeme);
    proof {
        lemma_next_lexeme_bounds(s@, p as int);
        lemma_ident_run_bound(s@, p + 1);
        lemma_nonquote_run_bound(s@, p + 1);
    }
    let c = s[p];
    if c == '\n' {
        return Lexeme { token: Token::Newline, start: p, end: p + 1 };
    }
    if c == '*' {
        return Lexeme { token: Token::Ptr, start: p, end: p + 1 };
    }
    if is_ident_start_char(c) {
        let e = ident_end(s, p + 1);
        let t = match keyword_at(s, p, e) {
            Some(k) => k,
            None => Token::Identifier,
        };
        return Lexeme { token: t, start: p, end: e };
    }
    let q = if c == '-' { p + 1 } else { p };
    proof {
        lemma_digit_run_bound(s@, q as int);
    }
    let e = digit_end(s, q);
    if e > q {
        proof {
            lemma_digit_run_bound(s@, e + 1);
        }
        if e < s.len() && s.len() - e > 1 && s[e] == '.' && is_digit_char(s[e + 1]) {
            let f = digit_end(s, e + 1);
            return Lexeme { token: Token::Number, start: p, end: f };
        }
        return Lexeme { token: Token::Number, start: p, end: e };
    }
    if c == '"' {
        let n = nonquote_end(s, p + 1);
        if n < s.len() {
            return Lexeme { token: Token::StringLiteral, start: p, end: n + 1 };
        }
    }
    Lexeme { token: Token::Error, start: p, end: p + 1 }
}

/// The tokens of the characters `s`.
pub fn lex(s: &Vec<char>) -> (toks: Vec<Lexeme>)
    ensures
        toks@ == spec_lex(s@),
{
    let mut toks: Vec<Lexeme> = Vec::new();
    let mut p: usize = 0;
    while p < s.len()
        invariant
            p <= s.len(),
            toks@ + lex_from(s@, p as int) == spec_lex(s@),
        decreases s.len() - p,
    {
        proof {
            lemma_skip_run_bound(s@, p as int);
        }
        let q = skip_end(s, p);
        if q >= s.len() {
            assert(lex_from(s@, p as int) == Seq::<Lexeme>::empty());
            assert(lex_from(s@, s.len() as int) == Seq::<Lexeme>::empty());
            p = s.len();
            continue;
        }
        let t = lexeme_at(s, q);
        proof {
            lemma_next_lexeme_bounds(s@, q as int);
            assert(lex_from(s@, p as int) == seq![t] + lex_from(s@, t.end as int));
            assert(toks@.push(t) + lex_from(s@, t.end as int) == toks@ + (seq![t] + lex_from(s@, t.end as int)));
        }
        toks.push(t);
        p = t.end;
    }
    assert(lex_from(s@, p as int) == Seq::<Lexeme>::empty());
    assert(toks@ + Seq::<Lexeme>::empty() == toks@);
    toks
}

/// The tokens of `source`.
pub fn tokenize(source: &str) -> (toks: Vec<Lexeme>)
    ensures
        toks@ == spec_lex(source@),
{
    let s = chars_of(source);
    lex(&s)
}

} // verus!

verus! {

/// Every token lies within the text, in order, and there are no more
/// tokens than characters.
pub open spec fn toks_fit(t: Seq<Lexeme>, s: Seq<char>) -> bool {
    &&& t.len() <= s.len()
    &&& forall|i: int| 0 <= i < t.len() ==> (#[trigger] t[i]).start < t[i].end <= s.len()
}

pub proof fn lemma_lex_from_fit(s: Seq<char>, p: int)
    requires
        0 <= p <= s.len(),
    ensures
        lex_from(s, p).len() <= s.len() - p,
        forall|i: int| 0 <= i < lex_from(s, p).len() ==>
            p <= (#[trigger] lex_from(s, p)[i]).start < lex_from(s, p)[i].end <= s.len(),
    decreases s.len() - p,
{
    if 0 <= p < s.len() && s.len() <= usize::MAX {
        lemma_skip_run_bound(s, p);
        let q = p + skip_run(s, p);
        if q < s.len() {
            let t = next_lexeme(s, q);
            lemma_next_lexeme_bounds(s, q);
            lemma_lex_from_fit(s, t.end as int);
            let rest = lex_from(s, t.end as int);
            assert(lex_from(s, p) == seq![t] + rest);
            assert forall|i: int| 0 <= i < lex_from(s, p).len() implies
                p <= (#[trigger] lex_from(s, p)[i]).start < lex_from(s, p)[i].end <= s.len() by {
                if i > 0 {
                    assert(lex_from(s, p)[i] == rest[i - 1]);
                }
            }
        }
    }
}

/// The tokens of a text lie within it.
pub proof fn lemma_lex_fit(s: Seq<char>)
    ensures
        toks_fit(spec_lex(s), s),
{
    lemma_lex_from_fit(s, 0);
}

} // verus!

verus! {

/// Whether every character of `s` from `a` up to `b` is skippable.
pub open spec fn all_skip(s: Seq<char>, a: int, b: int) -> bool {
    forall|k: int| a <= k < b ==> is_skip(#[trigger] s[k])
}

proof fn lemma_skip_run_all(s: Seq<char>, p: int)
    requires
        0 <= p <= s.len(),
    ensures
        all_skip(s, p, p + skip_run(s, p)),
    decreases s.len() - p,
{
    if 0 <= p < s.len() && is_skip(s[p]) {
        lemma_skip_run_all(s, p + 1);
    }
}

/// Token `i` ends no later than token `i + 1` starts, with only skippable
/// characters between them.
pub open spec fn joins(s: Seq<char>, t: Seq<Lexeme>, i: int) -> bool {
    t[i].end <= t[i + 1].start && all_skip(s, t[i].end as int, t[i + 1].start as int)
}

/// The tokens from `p` on cover the text: they come in order, each holds
/// at least one character, and only skippable characters lie before the
/// first, between two, and after the last.
pub open spec fn covers(s: Seq<char>, p: int, t: Seq<Lexeme>) -> bool {
    &&& t.len() == 0 ==> all_skip(s, p, s.len() as int)
    &&& t.len() > 0 ==> all_skip(s, p, t[0].start as int) && all_skip(s, t.last().end as int, s.len() as int)
    &&& forall|i: int| 0 <= i < t.len() ==> (#[trigger] t[i]).start < t[i].end
    &&& forall|i: int| 0 <= i < t.len() - 1 ==> #[trigger] joins(s, t, i)
}

proof fn lemma_lex_from_covers(s: Seq<char>, p: int)
    requires
        0 <= p <= s.len(),
        s.len() <= usize::MAX,
    ensures
        covers(s, p, lex_from(s, p)),
    decreases s.len() - p,
{
    lemma_skip_run_bound(s, p);
    lemma_skip_run_all(s, p);
    let q = p + skip_run(s, p);
    if p < s.len() && q < s.len() {
        let t = next_lexeme(s, q);
        lemma_next_lexeme_bounds(s, q);
        lemma_lex_from_covers(s, t.end as int);
        lemma_lex_from_fit(s, t.end as int);
        let rest = lex_from(s, t.end as int);
        let all = lex_from(s, p);
        assert(all == seq![t] + rest);
        assert forall|i: int| 0 <= i < all.len() implies (#[trigger] all[i]).start < all[i].end by {
            if i > 0 {
                assert(all[i] == rest[i - 1]);
            }
        }
        assert forall|i: int| 0 <= i < all.len() - 1 implies #[trigger] joins(s, all, i) by {
            if i > 0 {
                assert(all[i] == rest[i - 1]);
                assert(all[i + 1] == rest[i]);
                assert(joins(s, rest, i - 1));
            } else {
                assert(all[1] == rest[0]);
            }
        }
        if rest.len() > 0 {
            assert(all.last() == rest.last());
        } else {
            assert(all.last() == t);
        }
    } else if p < s.len() {
        assert(lex_from(s, p) == Seq::<Lexeme>::empty());
    }
}

/// The tokens cover the text: they come in order, none is empty, and only
/// spaces, tabs and form feeds lie outside them.
pub proof fn lemma_lex_covers(s: Seq<char>)
    requires
        s.len() <= usize::MAX,
    ensures
        covers(s, 0, spec_lex(s)),
{
    lemma_lex_from_covers(s, 0);
}

} // verus!

