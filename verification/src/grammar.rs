//! What the scanner computes, stated on sequences of characters.
//!
//! The text that a scanner has still to read is a `Seq<char>`. [`token_at`]
//! says which token stands at the front of a text and how many characters it
//! takes, [`scan`] says the same after whitespace has been passed over, and
//! [`tokens`] is the whole token stream of a text.
use vstd::prelude::*;
use crate::character::{is_identifier_char, spec_digit_value, spec_is_digit, spec_is_whitespace, CharClass};
use crate::token::TokenKind;

verus! {

/// The number of characters at the front of `s` that belong to `class`
/// without a break.
pub open spec fn run_len(s: Seq<char>, class: CharClass) -> nat
    decreases s.len(),
{
    if s.len() > 0 && class.holds(s[0]) {
        1 + run_len(s.skip(1), class)
    } else {
        0
    }
}

/// The value of a sequence of decimal digits, read as a number in base ten.
pub open spec fn decimal_value(digits: Seq<char>) -> nat
    decreases digits.len(),
{
    if digits.len() == 0 {
        0
    } else {
        10 * decimal_value(digits.drop_last()) + spec_digit_value(digits.last())
    }
}

/// The token of an integer literal: its value where a signed 32-bit integer
/// holds it, and an illegal token where it does not.
pub open spec fn integer_literal(digits: Seq<char>) -> TokenKind {
    if decimal_value(digits) <= i32::MAX {
        TokenKind::Integer(decimal_value(digits) as int)
    } else {
        TokenKind::Illegal
    }
}

/// The token of a word: a keyword where the word is exactly one, and an
/// identifier that carries the word otherwise.
pub open spec fn keyword_or_identifier(word: Seq<char>) -> TokenKind {
    if word == "fn"@ {
        TokenKind::Function
    } else if word == "let"@ {
        TokenKind::Let
    } else if word == "if"@ {
        TokenKind::If
    } else if word == "else"@ {
        TokenKind::Else
    } else if word == "return"@ {
        TokenKind::Return
    } else if word == "true"@ {
        TokenKind::True
    } else if word == "false"@ {
        TokenKind::False
    } else {
        TokenKind::Identifier(word)
    }
}

/// The token of a punctuation character that is a token by itself, whatever
/// follows it.
pub open spec fn punctuation(c: char) -> Option<TokenKind> {
    if c == ';' {
        Some(TokenKind::Semicolon)
    } else if c == '(' {
        Some(TokenKind::LeftParen)
    } else if c == ')' {
        Some(TokenKind::RightParen)
    } else if c == '{' {
        Some(TokenKind::LeftBrace)
    } else if c == '}' {
        Some(TokenKind::RightBrace)
    } else if c == ',' {
        Some(TokenKind::Comma)
    } else if c == '+' {
        Some(TokenKind::Plus)
    } else if c == '-' {
        Some(TokenKind::Minus)
    } else if c == '*' {
        Some(TokenKind::Asterisk)
    } else if c == '/' {
        Some(TokenKind::Slash)
    } else if c == '<' {
        Some(TokenKind::LessThan)
    } else if c == '>' {
        Some(TokenKind::GreaterThan)
    } else {
        None
    }
}

/// The token at the front of a text that starts with a character other than
/// whitespace, and the number of characters that the token takes.
pub open spec fn token_at(t: Seq<char>) -> (TokenKind, nat)
    recommends
        t.len() > 0,
        !spec_is_whitespace(t[0]),
{
    let c = t[0];
    let followed_by_equals = t.len() > 1 && t[1] == '=';
    if c == '=' {
        if followed_by_equals {
            (TokenKind::Equal, 2)
        } else {
            (TokenKind::Assign, 1)
        }
    } else if c == '!' {
        if followed_by_equals {
            (TokenKind::NotEqual, 2)
        } else {
            (TokenKind::Bang, 1)
        }
    } else if punctuation(c) is Some {
        (punctuation(c)->0, 1)
    } else if is_identifier_char(c) {
        let n = run_len(t, CharClass::Letter);
        (keyword_or_identifier(t.take(n as int)), n)
    } else if spec_is_digit(c) {
        let n = run_len(t, CharClass::Digit);
        (integer_literal(t.take(n as int)), n)
    } else {
        (TokenKind::Illegal, 1)
    }
}

/// What one step of scanning yields: `None` where only whitespace is left, and
/// else the next token together with the text that follows it.
pub open spec fn scan(s: Seq<char>) -> Option<(TokenKind, Seq<char>)> {
    let t = s.skip(run_len(s, CharClass::Whitespace) as int);
    if t.len() == 0 {
        None
    } else {
        Some((token_at(t).0, t.skip(token_at(t).1 as int)))
    }
}

/// The token stream of a text: its tokens in order, then the one token that
/// marks the end of the input.
pub open spec fn tokens(s: Seq<char>) -> Seq<TokenKind>
    decreases s.len(),
    via tokens_terminates
{
    match scan(s) {
        None => seq![TokenKind::EndOfInput],
        Some((kind, rest)) => seq![kind] + tokens(rest),
    }
}

#[via_fn]
proof fn tokens_terminates(s: Seq<char>) {
    lemma_scan_consumes(s);
}

/// A run is no longer than the text, every character of it belongs to the
/// class, and the character after it, if there is one, does not.
pub proof fn lemma_run_len(s: Seq<char>, class: CharClass)
    ensures
        run_len(s, class) <= s.len(),
        forall|i: int| 0 <= i < run_len(s, class) ==> class.holds(#[trigger] s[i]),
        run_len(s, class) < s.len() ==> !class.holds(s[run_len(s, class) as int]),
    decreases s.len(),
{
    if s.len() > 0 && class.holds(s[0]) {
        lemma_run_len(s.skip(1), class);
        assert forall|i: int| 0 <= i < run_len(s, class) implies class.holds(#[trigger] s[i]) by {
            if i > 0 {
                assert(s[i] == s.skip(1)[i - 1]);
            }
        }
    }
}

/// The length `n` of a run is the only one with these three properties.
pub proof fn lemma_run_len_unique(s: Seq<char>, class: CharClass, n: nat)
    requires
        n <= s.len(),
        forall|i: int| 0 <= i < n ==> class.holds(#[trigger] s[i]),
        n < s.len() ==> !class.holds(s[n as int]),
    ensures
        run_len(s, class) == n,
    decreases s.len(),
{
    if n > 0 {
        assert(class.holds(s[0]));
        assert forall|i: int| 0 <= i < n - 1 implies class.holds(#[trigger] s.skip(1)[i]) by {
            assert(s.skip(1)[i] == s[i + 1]);
        }
        lemma_run_len_unique(s.skip(1), class, (n - 1) as nat);
    }
}

/// A token takes at least one character and no more than the text has.
pub proof fn lemma_token_at_len(t: Seq<char>)
    requires
        t.len() > 0,
    ensures
        1 <= token_at(t).1 <= t.len(),
{
    lemma_run_len(t, CharClass::Letter);
    lemma_run_len(t, CharClass::Digit);
    assert(t.skip(1).len() == t.len() - 1);
}

/// Each step of scanning that yields a token leaves a shorter text, which is
/// an end of the text it started from.
pub proof fn lemma_scan_consumes(s: Seq<char>)
    ensures
        scan(s) matches Some((_, rest)) ==> rest.len() < s.len() && rest == s.skip(
            s.len() - rest.len(),
        ),
{
    lemma_run_len(s, CharClass::Whitespace);
    let w = run_len(s, CharClass::Whitespace) as int;
    let t = s.skip(w);
    if t.len() > 0 {
        lemma_token_at_len(t);
        let n = token_at(t).1 as int;
        assert(t.skip(n) =~= s.skip(w + n));
    }
}

/// No token that stands in a text is the one that marks the end of the input.
pub proof fn lemma_token_at_not_end(t: Seq<char>)
    ensures
        token_at(t).0 != TokenKind::EndOfInput,
{
}

/// A token stream ends with the token that marks the end of the input, and
/// holds that token nowhere else.
pub proof fn lemma_tokens_end(s: Seq<char>)
    ensures
        tokens(s).len() >= 1,
        tokens(s).last() == TokenKind::EndOfInput,
        forall|i: int| 0 <= i < tokens(s).len() - 1 ==> tokens(s)[i] != TokenKind::EndOfInput,
    decreases s.len(),
{
    match scan(s) {
        None => {},
        Some((kind, rest)) => {
            lemma_scan_consumes(s);
            lemma_tokens_end(rest);
            lemma_token_at_not_end(s.skip(run_len(s, CharClass::Whitespace) as int));
        },
    }
}

/// A punctuation character that is a token by itself gives that token,
/// whatever follows it: the rest of the text is scanned as if it stood alone.
/// So a sign before digits is never part of the integer literal.
pub proof fn lemma_punctuation_first(c: char, rest: Seq<char>)
    requires
        punctuation(c) is Some,
    ensures
        tokens(seq![c] + rest) == seq![punctuation(c)->0] + tokens(rest),
{
    let s = seq![c] + rest;
    assert(s[0] == c);
    assert(s.skip(0) =~= s);
    assert(s.skip(1) =~= rest);
}

/// A text that is one punctuation character gives two tokens: that of the
/// character, and the end of the input.
pub proof fn lemma_single_punctuation(c: char)
    requires
        punctuation(c) is Some,
    ensures
        tokens(seq![c]) == seq![punctuation(c)->0, TokenKind::EndOfInput],
{
    let empty = Seq::<char>::empty();
    lemma_punctuation_first(c, empty);
    assert(seq![c] + empty =~= seq![c]);
    assert(empty.skip(0) =~= empty);
    assert(seq![punctuation(c)->0] + seq![TokenKind::EndOfInput] =~= seq![
        punctuation(c)->0,
        TokenKind::EndOfInput,
    ]);
}

/// A text of nothing but whitespace, the empty text among them, holds no
/// token: its stream is the end of the input alone.
pub proof fn lemma_whitespace_only(s: Seq<char>)
    requires
        forall|i: int| 0 <= i < s.len() ==> spec_is_whitespace(#[trigger] s[i]),
    ensures
        tokens(s) == seq![TokenKind::EndOfInput],
{
    assert forall|i: int| 0 <= i < s.len() implies CharClass::Whitespace.holds(#[trigger] s[i]) by {
        assert(spec_is_whitespace(s[i]));
    }
    lemma_run_len_unique(s, CharClass::Whitespace, s.len());
}

/// Whitespace before a text does not change its tokens.
pub proof fn lemma_leading_whitespace(c: char, rest: Seq<char>)
    requires
        spec_is_whitespace(c),
    ensures
        tokens(seq![c] + rest) == tokens(rest),
{
    let s = seq![c] + rest;
    assert(s[0] == c);
    assert(s.skip(1) =~= rest);
    lemma_run_len(rest, CharClass::Whitespace);
    let w = run_len(rest, CharClass::Whitespace) as int;
    assert(s.skip(w + 1) =~= rest.skip(w));
}

/// The value of every integer token is one that a signed 32-bit integer
/// holds, and it is never negative.
pub proof fn lemma_integer_in_range(s: Seq<char>, i: int)
    requires
        0 <= i < tokens(s).len(),
    ensures
        tokens(s)[i] matches TokenKind::Integer(value) ==> 0 <= value <= i32::MAX,
    decreases s.len(),
{
    match scan(s) {
        None => {},
        Some((kind, rest)) => {
            lemma_scan_consumes(s);
            if i > 0 {
                lemma_integer_in_range(rest, i - 1);
            }
        },
    }
}

/// The token stream is a function of the text: scanning equal texts gives
/// equal streams, token by token.
pub proof fn lemma_deterministic(a: Seq<char>, b: Seq<char>)
    requires
        a =~= b,
    ensures
        tokens(a).len() == tokens(b).len(),
        forall|i: int| 0 <= i < tokens(a).len() ==> tokens(a)[i] == tokens(b)[i],
{
}

/// Each of the seven keywords gives its own token: no two of them are
/// spelled alike, so the order in which a word is held against them does not
/// matter.
pub proof fn lemma_keywords()
    ensures
        keyword_or_identifier("fn"@) == TokenKind::Function,
        keyword_or_identifier("let"@) == TokenKind::Let,
        keyword_or_identifier("if"@) == TokenKind::If,
        keyword_or_identifier("else"@) == TokenKind::Else,
        keyword_or_identifier("return"@) == TokenKind::Return,
        keyword_or_identifier("true"@) == TokenKind::True,
        keyword_or_identifier("false"@) == TokenKind::False,
{
    reveal_strlit("fn");
    reveal_strlit("let");
    reveal_strlit("if");
    reveal_strlit("else");
    reveal_strlit("return");
    reveal_strlit("true");
    reveal_strlit("false");
    assert("fn"@.len() == 2 && "if"@.len() == 2 && "fn"@[0] != "if"@[0]);
    assert("let"@.len() == 3);
    assert("else"@.len() == 4 && "true"@.len() == 4 && "else"@[0] != "true"@[0]);
    assert("false"@.len() == 5);
    assert("return"@.len() == 6);
}

/// `=` and `!` join a `=` that follows them at once into one token, and are
/// a token of their own before anything else and at the end of the text.
pub proof fn lemma_operator_first(c: char, rest: Seq<char>)
    requires
        c == '=' || c == '!',
    ensures
        tokens(seq![c, '='] + rest) == seq![
            if c == '=' {
                TokenKind::Equal
            } else {
                TokenKind::NotEqual
            },
        ] + tokens(rest),
        rest.len() == 0 || rest[0] != '=' ==> tokens(seq![c] + rest) == seq![
            if c == '=' {
                TokenKind::Assign
            } else {
                TokenKind::Bang
            },
        ] + tokens(rest),
{
    let double = seq![c, '='] + rest;
    assert(double[0] == c && double[1] == '=');
    assert(double.skip(0) =~= double);
    assert(double.skip(2) =~= rest);
    let single = seq![c] + rest;
    assert(single[0] == c);
    assert(single.skip(0) =~= single);
    assert(single.skip(1) =~= rest);
    if rest.len() > 0 {
        assert(single[1] == rest[0]);
    }
}

} // verus!
