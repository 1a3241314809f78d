//! How an identifier starts: every ASCII letter, upper or lower case, and
//! `_` begins one token that runs as far as the identifier goes on.

use vstd::prelude::*;
use crate::token::Token;
use crate::lexer::{keyword, next_lexeme, ident_run, ident_continues, lemma_ident_run_bound};
use crate::type_name_laws::lemma_keyword_texts;

verus! {

/// A character that may stand anywhere in an identifier after its first:
/// `_`, an ASCII letter or a digit.
pub open spec fn name_char(c: char) -> bool {
    c == '_' || ('a' <= c <= 'z') || ('A' <= c <= 'Z') || ('0' <= c <= '9')
}

/// Whether the identifier text goes on at `j`: a name character, or a `.`
/// that a name character follows.
pub open spec fn name_goes_on(s: Seq<char>, j: int) -> bool {
    0 <= j < s.len() && (name_char(s[j]) || (s[j] == '.' && j + 1 < s.len() && name_char(s[j + 1])))
}

/// The run of identifier text from `q` on stops at the first position where
/// the text does not go on, and goes on at every position before it.
proof fn lemma_ident_run_stops(s: Seq<char>, q: int)
    requires
        0 <= q <= s.len(),
    ensures
        forall|j: int| q <= j < q + ident_run(s, q) ==> name_goes_on(s, j),
        !name_goes_on(s, q + ident_run(s, q)),
    decreases s.len() - q,
{
    assert(ident_continues(s, q) == name_goes_on(s, q));
    if ident_continues(s, q) {
        lemma_ident_run_stops(s, q + 1);
    }
}

/// At a letter (`a` to `z` or `A` to `Z`) or `_`, the lexer reads one token
/// that starts there and takes the longest run `[_a-zA-Z0-9]*(\.[_a-zA-Z0-9]+)*`
/// after it (the text right after the token does not go on as an
/// identifier). The token is the keyword the text spells, or else an
/// identifier. Every keyword starts with a lower-case letter, so text that
/// starts with an upper-case letter or `_` is always an identifier.
pub proof fn lemma_letter_starts_identifier(s: Seq<char>, p: int)
    requires
        0 <= p < s.len(),
        s.len() <= usize::MAX,
        s[p] == '_' || ('a' <= s[p] <= 'z') || ('A' <= s[p] <= 'Z'),
    ensures
        next_lexeme(s, p).start == p,
        next_lexeme(s, p).end == p + 1 + ident_run(s, p + 1),
        forall|j: int| p < j < next_lexeme(s, p).end ==> name_goes_on(s, j),
        !name_goes_on(s, next_lexeme(s, p).end as int),
        keyword(s.subrange(p, p + 1 + ident_run(s, p + 1))) matches Some(k) ==> next_lexeme(s, p).token == k,
        keyword(s.subrange(p, p + 1 + ident_run(s, p + 1))) is None ==> next_lexeme(s, p).token == Token::Identifier,
        (s[p] == '_' || ('A' <= s[p] <= 'Z')) ==> next_lexeme(s, p).token == Token::Identifier,
{
    reveal(next_lexeme);
    lemma_ident_run_bound(s, p + 1);
    lemma_ident_run_stops(s, p + 1);
    let w = s.subrange(p, p + 1 + ident_run(s, p + 1));
    assert(w[0] == s[p]);
    if s[p] == '_' || ('A' <= s[p] <= 'Z') {
        reveal(keyword);
        lemma_keyword_texts();
        assert(keyword(w) is None);
    }
}

} // verus!
