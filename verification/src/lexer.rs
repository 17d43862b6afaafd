//! The scanner: a cursor over a text that hands out its tokens one by one.
use vstd::prelude::*;
use vstd::string::StrSliceExecFns;
use crate::character::{
    continues_identifier, digit_value, is_alphabetic, is_digit, is_whitespace, same_text, CharClass,
};
use crate::grammar::{
    decimal_value, keyword_or_identifier, lemma_run_len, lemma_run_len_unique,
    lemma_scan_consumes, lemma_tokens_end, run_len, scan, tokens,
};
use crate::token::{Token, TokenKind, TokenType};

verus! {

/// A cursor over a source text.
///
/// The cursor stands on one character of the text, or behind its last one. It
/// only moves forward, and behind the end its offsets count on. The offsets
/// are kept in 128 bits: a text has at most `usize::MAX` characters, so the
/// offset behind its last character always has a successor.
#[derive(Debug)]
pub struct Lexer<'a> {
    input: &'a str,
    /// The number of characters of `input`.
    length: usize,
    /// The offset, in characters, of the character under the cursor.
    position: u128,
    /// The offset of the character that is read next: always one past
    /// `position`.
    read_position: u128,
    /// The character at `position`; `None` behind the end of `input`.
    current_character: Option<char>,
}

impl<'a> View for Lexer<'a> {
    type V = Seq<char>;

    /// The text that is still to be scanned: the source from the position
    /// on. It starts with the character under the cursor, and it is empty
    /// behind the end.
    open spec fn view(&self) -> Seq<char> {
        if self.position() <= self.source().len() {
            self.source().skip(self.position() as int)
        } else {
            Seq::empty()
        }
    }
}

impl<'a> Lexer<'a> {
    /// The whole text that the scanner was made for. It never changes.
    pub closed spec fn source(&self) -> Seq<char> {
        self.input@
    }

    /// The offset of the character under the cursor.
    pub closed spec fn spec_position(&self) -> u128 {
        self.position
    }

    /// The offset of the character that is read next.
    pub closed spec fn spec_read_position(&self) -> u128 {
        self.read_position
    }

    #[verifier::type_invariant]
    spec fn well_formed(&self) -> bool {
        &&& self.length == self.input@.len()
        &&& self.read_position == self.position + 1
        &&& self.current_character == if self.position < self.length {
            Some(self.input@[self.position as int])
        } else {
            None::<char>
        }
    }

    /// Creates a scanner that stands on the first character of `input`.
    pub fn new(input: &'a str) -> (lexer: Self)
        ensures
            lexer.source() == input@,
            lexer.source().len() <= usize::MAX,
            lexer.position() == 0,
            lexer.read_position() == 1,
            lexer@ == input@,
    {
        let length: usize = input.unicode_len();
        let current_character = if 0 < length {
            Some(input.get_char(0))
        } else {
            None
        };
        assert(input@.skip(0) =~= input@);
        Lexer { input, length, position: 0, read_position: 1, current_character }
    }

    /// The offset, in characters, of the character under the cursor.
    #[verifier::when_used_as_spec(spec_position)]
    pub fn position(&self) -> (offset: u128)
        ensures
            offset == self.position(),
    {
        self.position
    }

    /// The offset of the character that is read next. It is one past the
    /// position, always.
    #[verifier::when_used_as_spec(spec_read_position)]
    pub fn read_position(&self) -> (offset: u128)
        ensures
            offset == self.read_position(),
            offset == self.position() + 1,
    {
        proof {
            use_type_invariant(&*self);
        }
        self.read_position
    }

    /// The character under the cursor: that of the source at the position,
    /// and `None` exactly where the position lies behind the end.
    pub fn current_character(&self) -> (c: Option<char>)
        ensures
            c == if self.position() < self.source().len() {
                Some(self.source()[self.position() as int])
            } else {
                None::<char>
            },
            c == if self@.len() > 0 {
                Some(self@[0])
            } else {
                None::<char>
            },
    {
        proof {
            use_type_invariant(&*self);
        }
        self.current_character
    }

    /// Moves the cursor forward by one: the character at the read position
    /// comes under the cursor, or none where that lies behind the end; the
    /// position becomes the read position, which grows by one.
    pub fn read_char(&mut self)
        requires
            old(self).read_position() < u128::MAX,
        ensures
            final(self).source() == old(self).source(),
            final(self).position() == old(self).read_position(),
            final(self).read_position() == old(self).read_position() + 1,
            final(self)@ == if old(self)@.len() > 0 {
                old(self)@.skip(1)
            } else {
                old(self)@
            },
    {
        proof {
            use_type_invariant(&*self);
        }
        let current_character = if self.read_position < self.length as u128 {
            Some(self.input.get_char(self.read_position as usize))
        } else {
            None
        };
        proof {
            let text = self.input@;
            if self.position < self.length {
                assert(text.skip(self.position as int).skip(1) =~= text.skip(
                    self.read_position as int,
                ));
            } else if self.position == self.length {
                assert(text.skip(self.position as int) =~= Seq::<char>::empty());
            }
        }
        *self = Lexer {
            input: self.input,
            length: self.length,
            position: self.read_position,
            read_position: self.read_position + 1,
            current_character,
        };
    }

    /// The character at the read position, or `None` where that lies behind
    /// the end. The cursor stays where it is.
    pub fn peak_char(&self) -> (c: Option<char>)
        ensures
            c == if self.read_position() < self.source().len() {
                Some(self.source()[self.read_position() as int])
            } else {
                None::<char>
            },
            c == if self@.len() > 1 {
                Some(self@[1])
            } else {
                None::<char>
            },
    {
        proof {
            use_type_invariant(&*self);
        }
        if self.is_end_of_file() {
            return None;
        }
        if self.read_position < self.length as u128 {
            Some(self.input.get_char(self.read_position as usize))
        } else {
            None
        }
    }

    /// Whether the cursor stands behind the last character.
    pub fn is_end_of_file(&self) -> (at_end: bool)
        ensures
            at_end == (self.read_position() > self.source().len()),
            at_end == (self.position() >= self.source().len()),
            at_end == (self@.len() == 0),
    {
        proof {
            use_type_invariant(&*self);
        }
        self.read_position > self.length as u128
    }

    /// The offset under the cursor as an index into the text: the length of
    /// the text where the cursor stands behind the end.
    fn index(&self) -> (i: usize)
        ensures
            i == if self.position <= self.length {
                self.position as int
            } else {
                self.length as int
            },
    {
        if self.position < self.length as u128 {
            self.position as usize
        } else {
            self.length
        }
    }

    /// Moves the cursor to the first character that is not whitespace, or
    /// behind the end of the text where there is none.
    pub fn skip_whitespace(&mut self)
        ensures
            final(self).source() == old(self).source(),
            final(self).position() == old(self).position() + run_len(
                old(self)@,
                CharClass::Whitespace,
            ),
            final(self).read_position() == final(self).position() + 1,
            final(self)@ == old(self)@.skip(run_len(old(self)@, CharClass::Whitespace) as int),
    {
        let ghost start = self@;
        let ghost mut passed: int = 0;
        proof {
            use_type_invariant(&*self);
            assert(start.skip(0) =~= start);
        }
        loop
            invariant
                0 <= passed <= start.len(),
                self@ == start.skip(passed),
                self.source() == old(self).source(),
                self.position() == old(self).position() + passed,
                self.read_position() == self.position() + 1,
                forall|i: int| 0 <= i < passed ==> CharClass::Whitespace.holds(#[trigger] start[i]),
            ensures
                passed < start.len() ==> !CharClass::Whitespace.holds(start[passed]),
            decreases start.len() - passed,
        {
            match self.current_character() {
                None => {
                    break ;
                },
                Some(c) => {
                    if !is_whitespace(c) {
                        break ;
                    }
                },
            }
            proof {
                use_type_invariant(&*self);
            }
            self.read_char();
            proof {
                assert(start.skip(passed).skip(1) =~= start.skip(passed + 1));
                passed = passed + 1;
            }
        }
        proof {
            lemma_run_len_unique(start, CharClass::Whitespace, passed as nat);
        }
    }

    /// Reads the word under the cursor: the longest run of identifier
    /// characters that starts there. The cursor ends on the first character
    /// behind the word.
    pub fn read_identifier(&mut self) -> (word: &'a str)
        ensures
            word@ == old(self)@.take(run_len(old(self)@, CharClass::Letter) as int),
            final(self).source() == old(self).source(),
            final(self).position() == old(self).position() + run_len(
                old(self)@,
                CharClass::Letter,
            ),
            final(self).read_position() == final(self).position() + 1,
            final(self)@ == old(self)@.skip(run_len(old(self)@, CharClass::Letter) as int),
    {
        proof {
            use_type_invariant(&*self);
        }
        let position: usize = self.index();
        let ghost start = self@;
        let ghost mut passed: int = 0;
        assert(start.skip(0) =~= start);
        loop
            invariant
                0 <= passed <= start.len(),
                self@ == start.skip(passed),
                self.source() == old(self).source(),
                self.position() == old(self).position() + passed,
                self.read_position() == self.position() + 1,
                forall|i: int| 0 <= i < passed ==> CharClass::Letter.holds(#[trigger] start[i]),
            ensures
                passed < start.len() ==> !CharClass::Letter.holds(start[passed]),
            decreases start.len() - passed,
        {
            match self.current_character() {
                None => {
                    break ;
                },
                Some(c) => {
                    if !continues_identifier(c, is_alphabetic(c)) {
                        break ;
                    }
                },
            }
            proof {
                use_type_invariant(&*self);
            }
            self.read_char();
            proof {
                assert(start.skip(passed).skip(1) =~= start.skip(passed + 1));
                passed = passed + 1;
            }
        }
        proof {
            use_type_invariant(&*self);
            lemma_run_len_unique(start, CharClass::Letter, passed as nat);
        }
        let end: usize = self.index();
        proof {
            assert(end == position + passed);
            assert(self.input@.subrange(position as int, end as int) =~= start.take(passed));
        }
        self.input.substring_char(position, end)
    }

    /// Reads the integer literal under the cursor: the longest run of decimal
    /// digits that starts there. The cursor ends on the first character behind
    /// the digits. The value of the literal has to be one that a signed 32-bit
    /// integer holds; [`Lexer::read_digit_checked`] reads any literal.
    pub fn read_digit(&mut self) -> (value: i32)
        requires
            decimal_value(old(self)@.take(run_len(old(self)@, CharClass::Digit) as int))
                <= i32::MAX,
        ensures
            value == decimal_value(old(self)@.take(run_len(old(self)@, CharClass::Digit) as int)),
            final(self).source() == old(self).source(),
            final(self).position() == old(self).position() + run_len(
                old(self)@,
                CharClass::Digit,
            ),
            final(self).read_position() == final(self).position() + 1,
            final(self)@ == old(self)@.skip(run_len(old(self)@, CharClass::Digit) as int),
    {
        match self.read_digit_checked() {
            Some(value) => value,
            None => unreached(),
        }
    }

    /// Reads the integer literal under the cursor as [`Lexer::read_digit`]
    /// does, whatever its value: the result is that value, or `None` where a
    /// signed 32-bit integer does not hold it.
    pub fn read_digit_checked(&mut self) -> (value: Option<i32>)
        ensures
            ({
                let literal = decimal_value(
                    old(self)@.take(run_len(old(self)@, CharClass::Digit) as int),
                );
                value == if literal <= i32::MAX {
                    Some(literal as i32)
                } else {
                    None::<i32>
                }
            }),
            final(self).source() == old(self).source(),
            final(self).position() == old(self).position() + run_len(
                old(self)@,
                CharClass::Digit,
            ),
            final(self).read_position() == final(self).position() + 1,
            final(self)@ == old(self)@.skip(run_len(old(self)@, CharClass::Digit) as int),
    {
        let ghost start = self@;
        let ghost mut passed: int = 0;
        let mut value: Option<i32> = Some(0);
        proof {
            use_type_invariant(&*self);
            assert(start.skip(0) =~= start);
            assert(start.take(0) =~= Seq::<char>::empty());
        }
        loop
            invariant
                0 <= passed <= start.len(),
                self@ == start.skip(passed),
                self.source() == old(self).source(),
                self.position() == old(self).position() + passed,
                self.read_position() == self.position() + 1,
                forall|i: int| 0 <= i < passed ==> CharClass::Digit.holds(#[trigger] start[i]),
                value == if decimal_value(start.take(passed)) <= i32::MAX {
                    Some(decimal_value(start.take(passed)) as i32)
                } else {
                    None::<i32>
                },
            ensures
                passed < start.len() ==> !CharClass::Digit.holds(start[passed]),
            decreases start.len() - passed,
        {
            let digit: u32 = match self.current_character() {
                None => {
                    break ;
                },
                Some(c) => {
                    if !is_digit(c) {
                        break ;
                    }
                    digit_value(c)
                },
            };
            value = match value {
                Some(so_far) if so_far as i64 * 10 + digit as i64 <= i32::MAX as i64 => Some(
                    (so_far as i64 * 10 + digit as i64) as i32,
                ),
                _ => None,
            };
            proof {
                use_type_invariant(&*self);
            }
            self.read_char();
            proof {
                assert(start.skip(passed).skip(1) =~= start.skip(passed + 1));
                assert(start.take(passed + 1).drop_last() =~= start.take(passed));
                assert(start.take(passed + 1).last() == start[passed]);
                passed = passed + 1;
            }
        }
        proof {
            lemma_run_len_unique(start, CharClass::Digit, passed as nat);
        }
        value
    }

    /// Reads the rest of the text and returns its tokens in order, followed by
    /// the one token that marks the end of the input. Nothing is left to scan
    /// afterwards.
    pub fn read(&mut self) -> (result: Vec<Token>)
        ensures
            result.deep_view() == tokens(old(self)@),
            result@.len() >= 1,
            result@.last()@ == TokenKind::EndOfInput,
            forall|i: int| 0 <= i < result@.len() - 1 ==> result@[i]@ != TokenKind::EndOfInput,
            final(self).source() == old(self).source(),
            final(self).position() == old(self).position() + old(self)@.len(),
            final(self).read_position() == final(self).position() + 1,
            final(self)@.len() == 0,
    {
        let mut result: Vec<Token> = Vec::new();
        let ghost start = self@;
        assert(result.deep_view() =~= Seq::<TokenKind>::empty());
        assert(Seq::<TokenKind>::empty() + tokens(start) =~= tokens(start));
        loop
            invariant_except_break
                tokens(start) == result.deep_view() + tokens(self@),
            invariant
                self.source() == old(self).source(),
                self.position() == old(self).position() + (start.len() - self@.len()),
            ensures
                result.deep_view() == tokens(start),
                self.read_position() == self.position() + 1,
                self@.len() == 0,
            decreases self@.len(),
        {
            let ghost before = self@;
            let ghost collected = result.deep_view();
            let token = self.next_token();
            proof {
                lemma_scan_consumes(before);
            }
            match token {
                None => {
                    result.push(Token::new(TokenType::EOF));
                    assert(result.deep_view() =~= collected + seq![TokenKind::EndOfInput]);
                    break ;
                },
                Some(token) => {
                    let ghost kind = token@;
                    result.push(token);
                    assert(result.deep_view() =~= collected + seq![kind]);
                    assert((collected + seq![kind]) + tokens(self@) =~= collected + (seq![kind]
                        + tokens(self@)));
                },
            }
        }
        proof {
            lemma_tokens_end(start);
            let last = result@.len() - 1;
            assert(result.deep_view()[last] == result@[last]@);
            assert forall|i: int| 0 <= i < result@.len() - 1 implies result@[i]@
                != TokenKind::EndOfInput by {
                assert(result.deep_view()[i] == result@[i]@);
            }
        }
        result
    }

    /// Tells a keyword from an identifier: a word that is exactly one of the
    /// keywords gives that keyword, any other word an identifier that carries
    /// it.
    pub fn lookup_identifier(ident: &str) -> (token_type: TokenType)
        ensures
            token_type@ == keyword_or_identifier(ident@),
    {
        if same_text(ident, "fn") {
            TokenType::FUNCTION
        } else if same_text(ident, "let") {
            TokenType::LET
        } else if same_text(ident, "if") {
            TokenType::IF
        } else if same_text(ident, "else") {
            TokenType::ELSE
        } else if same_text(ident, "return") {
            TokenType::RETURN
        } else if same_text(ident, "true") {
            TokenType::TRUE
        } else if same_text(ident, "false") {
            TokenType::FALSE
        } else {
            TokenType::IDENT(ident.to_owned())
        }
    }

    /// Passes over whitespace and reads the token that follows, or returns
    /// `None` where the text holds no further token. The cursor ends behind
    /// what was read.
    pub fn next_token(&mut self) -> (token: Option<Token>)
        ensures
            match scan(old(self)@) {
                None => token is None && final(self)@.len() == 0,
                Some((kind, rest)) => token is Some && token->0@ == kind && final(self)@ == rest,
            },
            final(self).source() == old(self).source(),
            final(self).position() == old(self).position() + old(self)@.len() - final(self)@.len(),
            final(self).read_position() == final(self).position() + 1,
    {
        proof {
            lemma_run_len(self@, CharClass::Whitespace);
        }
        self.skip_whitespace();
        let ghost text = self@;
        proof {
            use_type_invariant(&*self);
            lemma_run_len(text, CharClass::Letter);
            lemma_run_len(text, CharClass::Digit);
        }
        let current = match self.current_character() {
            None => {
                return None;
            },
            Some(c) => c,
        };
        let token = match current {
            '=' => match self.peak_char() {
                Some('=') => {
                    self.read_char();
                    Token::new(TokenType::EQ)
                },
                _ => Token::new(TokenType::ASSIGN),
            },
            ';' => Token::new(TokenType::SEMICOLON),
            '(' => Token::new(TokenType::LPAREN),
            ')' => Token::new(TokenType::RPAREN),
            '{' => Token::new(TokenType::LBRACE),
            '}' => Token::new(TokenType::RBRACE),
            ',' => Token::new(TokenType::COMMA),
            '+' => Token::new(TokenType::PLUS),
            '-' => Token::new(TokenType::MINUS),
            '*' => Token::new(TokenType::ASTERISK),
            '/' => Token::new(TokenType::FORWARDSLASH),
            '!' => match self.peak_char() {
                Some('=') => {
                    self.read_char();
                    Token::new(TokenType::NOTEQ)
                },
                _ => Token::new(TokenType::BANG),
            },
            '<' => Token::new(TokenType::LT),
            '>' => Token::new(TokenType::GT),
            item => {
                if continues_identifier(item, is_alphabetic(item)) {
                    return Some(Token::new(Lexer::lookup_identifier(self.read_identifier())));
                } else if is_digit(item) {
                    return Some(
                        Token::new(
                            match self.read_digit_checked() {
                                Some(value) => TokenType::INT(value),
                                None => TokenType::ILLEGAL,
                            },
                        ),
                    );
                } else {
                    Token::new(TokenType::ILLEGAL)
                }
            },
        };
        self.read_char();
        proof {
            if text.len() > 1 {
                assert(text.skip(1).skip(1) =~= text.skip(2));
            }
        }
        Some(token)
    }
}

} // verus!
