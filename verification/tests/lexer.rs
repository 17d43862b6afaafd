use monkey_lexer::lexer::Lexer;
use monkey_lexer::token::{Token, TokenType};

fn lex(input: &str) -> Vec<Token> {
    let mut lexer = Lexer::new(input);
    lexer.read()
}

fn ident(name: &str) -> Token {
    Token::new(TokenType::IDENT(String::from(name)))
}

#[test]
fn it_should_read_chars() {
    let input = "let a = 5;";
    let mut lexer = Lexer::new(input);

    for char in input.chars() {
        assert_eq!(lexer.current_character().unwrap(), char);
        lexer.read_char();
    }
}

#[test]
fn it_should_lex_double_tokens() {
    // Arrange
    let input = "== !=";
    let expected = vec![
        Token::new(TokenType::EQ),
        Token::new(TokenType::NOTEQ),
        Token::new(TokenType::EOF),
    ];

    // Act
    let mut lexer = Lexer::new(input);
    let tokens = lexer.read();

    // Assert
    assert_eq!(tokens, expected);
}

#[test]
fn it_should_lex_keywords_tokens() {
    // Arrange
    let input = "fn let true false if else return";
    let expected = vec![
        Token::new(TokenType::FUNCTION),
        Token::new(TokenType::LET),
        Token::new(TokenType::TRUE),
        Token::new(TokenType::FALSE),
        Token::new(TokenType::IF),
        Token::new(TokenType::ELSE),
        Token::new(TokenType::RETURN),
        Token::new(TokenType::EOF),
    ];

    // Act
    let mut lexer = Lexer::new(input);
    let tokens = lexer.read();

    // Assert
    assert_eq!(tokens, expected);
}

#[test]
fn it_should_lex_single_tokens() {
    // Arrange
    let input = "=+-*/!<>,;(){}";
    let expected = vec![
        Token::new(TokenType::ASSIGN),
        Token::new(TokenType::PLUS),
        Token::new(TokenType::MINUS),
        Token::new(TokenType::ASTERISK),
        Token::new(TokenType::FORWARDSLASH),
        Token::new(TokenType::BANG),
        Token::new(TokenType::LT),
        Token::new(TokenType::GT),
        Token::new(TokenType::COMMA),
        Token::new(TokenType::SEMICOLON),
        Token::new(TokenType::LPAREN),
        Token::new(TokenType::RPAREN),
        Token::new(TokenType::LBRACE),
        Token::new(TokenType::RBRACE),
        Token::new(TokenType::EOF),
    ];

    // Act
    let mut lexer = Lexer::new(input);
    let tokens = lexer.read();

    // Assert
    assert_eq!(tokens, expected);
}

#[test]
fn empty_input_gives_the_end_alone() {
    assert_eq!(lex(""), vec![Token::new(TokenType::EOF)]);
}

#[test]
fn every_stream_ends_with_one_end_token() {
    for input in ["", " ", "let a = 5;", "@@@", "99999999999", "a b c", "=", "京都 + 1"] {
        let tokens = lex(input);
        assert_eq!(tokens.last(), Some(&Token::new(TokenType::EOF)));
        let ends = tokens.iter().filter(|t| t.t_type == TokenType::EOF).count();
        assert_eq!(ends, 1);
    }
}

#[test]
fn each_punctuation_character_alone_gives_its_token() {
    let cases = [
        (";", TokenType::SEMICOLON),
        ("(", TokenType::LPAREN),
        (")", TokenType::RPAREN),
        ("{", TokenType::LBRACE),
        ("}", TokenType::RBRACE),
        (",", TokenType::COMMA),
        ("+", TokenType::PLUS),
        ("-", TokenType::MINUS),
        ("*", TokenType::ASTERISK),
        ("/", TokenType::FORWARDSLASH),
        ("<", TokenType::LT),
        (">", TokenType::GT),
    ];
    for (input, expected) in cases {
        assert_eq!(lex(input), vec![Token::new(expected), Token::new(TokenType::EOF)]);
    }
}

#[test]
fn assign_alone() {
    assert_eq!(lex("="), vec![Token::new(TokenType::ASSIGN), Token::new(TokenType::EOF)]);
}

#[test]
fn equal_operator() {
    assert_eq!(lex("=="), vec![Token::new(TokenType::EQ), Token::new(TokenType::EOF)]);
}

#[test]
fn bang_alone() {
    assert_eq!(lex("!"), vec![Token::new(TokenType::BANG), Token::new(TokenType::EOF)]);
}

#[test]
fn not_equal_operator() {
    assert_eq!(lex("!="), vec![Token::new(TokenType::NOTEQ), Token::new(TokenType::EOF)]);
}

#[test]
fn three_equals_signs_are_equal_then_assign() {
    assert_eq!(
        lex("==="),
        vec![
            Token::new(TokenType::EQ),
            Token::new(TokenType::ASSIGN),
            Token::new(TokenType::EOF),
        ]
    );
}

#[test]
fn assign_before_whitespace_does_not_join_the_next_equals() {
    assert_eq!(
        lex("= ="),
        vec![
            Token::new(TokenType::ASSIGN),
            Token::new(TokenType::ASSIGN),
            Token::new(TokenType::EOF),
        ]
    );
}

#[test]
fn a_word_that_is_no_keyword_is_an_identifier() {
    assert_eq!(lex("foobar"), vec![ident("foobar"), Token::new(TokenType::EOF)]);
}

#[test]
fn keywords_match_exactly_and_by_case() {
    assert_eq!(
        lex("Let lets fnn IF"),
        vec![ident("Let"), ident("lets"), ident("fnn"), ident("IF"), Token::new(TokenType::EOF)]
    );
}

#[test]
fn identifiers_may_hold_letters_of_any_script() {
    assert_eq!(
        lex("京都 été"),
        vec![ident("京都"), ident("été"), Token::new(TokenType::EOF)]
    );
}

#[test]
fn integer_literal() {
    assert_eq!(lex("12345"), vec![Token::new(TokenType::INT(12345)), Token::new(TokenType::EOF)]);
}

#[test]
fn a_sign_is_no_part_of_an_integer_literal() {
    assert_eq!(
        lex("-5"),
        vec![
            Token::new(TokenType::MINUS),
            Token::new(TokenType::INT(5)),
            Token::new(TokenType::EOF),
        ]
    );
}

#[test]
fn leading_zeros_do_not_change_the_value() {
    assert_eq!(lex("0007"), vec![Token::new(TokenType::INT(7)), Token::new(TokenType::EOF)]);
    assert_eq!(lex("0"), vec![Token::new(TokenType::INT(0)), Token::new(TokenType::EOF)]);
    assert_eq!(
        lex("00000000000000000000000012"),
        vec![Token::new(TokenType::INT(12)), Token::new(TokenType::EOF)]
    );
}

#[test]
fn the_largest_integer_literal() {
    assert_eq!(
        lex("2147483647"),
        vec![Token::new(TokenType::INT(i32::MAX)), Token::new(TokenType::EOF)]
    );
}

#[test]
fn an_integer_literal_out_of_range_is_one_illegal_token() {
    assert_eq!(
        lex("2147483648"),
        vec![Token::new(TokenType::ILLEGAL), Token::new(TokenType::EOF)]
    );
    assert_eq!(
        lex("99999999999999999999999999 + 1"),
        vec![
            Token::new(TokenType::ILLEGAL),
            Token::new(TokenType::PLUS),
            Token::new(TokenType::INT(1)),
            Token::new(TokenType::EOF),
        ]
    );
}

#[test]
fn digits_after_letters_start_a_new_token() {
    assert_eq!(
        lex("a1b"),
        vec![
            ident("a"),
            Token::new(TokenType::INT(1)),
            ident("b"),
            Token::new(TokenType::EOF),
        ]
    );
}

#[test]
fn whitespace_alone_gives_the_end_alone() {
    assert_eq!(lex(" \t\n\r  \n"), vec![Token::new(TokenType::EOF)]);
}

#[test]
fn whitespace_around_tokens_is_dropped() {
    assert_eq!(
        lex("\n\t let \r\n x \t"),
        vec![Token::new(TokenType::LET), ident("x"), Token::new(TokenType::EOF)]
    );
}

#[test]
fn a_full_statement() {
    assert_eq!(
        lex("let a = 5;"),
        vec![
            Token::new(TokenType::LET),
            ident("a"),
            Token::new(TokenType::ASSIGN),
            Token::new(TokenType::INT(5)),
            Token::new(TokenType::SEMICOLON),
            Token::new(TokenType::EOF),
        ]
    );
}

#[test]
fn a_statement_without_spaces() {
    assert_eq!(
        lex("fn(x,y){return x!=y;}"),
        vec![
            Token::new(TokenType::FUNCTION),
            Token::new(TokenType::LPAREN),
            ident("x"),
            Token::new(TokenType::COMMA),
            ident("y"),
            Token::new(TokenType::RPAREN),
            Token::new(TokenType::LBRACE),
            Token::new(TokenType::RETURN),
            ident("x"),
            Token::new(TokenType::NOTEQ),
            ident("y"),
            Token::new(TokenType::SEMICOLON),
            Token::new(TokenType::RBRACE),
            Token::new(TokenType::EOF),
        ]
    );
}

#[test]
fn scanning_twice_gives_the_same_tokens() {
    for input in ["let a = 5;", "", "== != @ 12 京", "99999999999"] {
        assert_eq!(lex(input), lex(input));
    }
}

#[test]
fn an_unknown_character_is_illegal_and_scanning_goes_on() {
    assert_eq!(
        lex("a @ b"),
        vec![ident("a"), Token::new(TokenType::ILLEGAL), ident("b"), Token::new(TokenType::EOF)]
    );
    assert_eq!(
        lex("#$"),
        vec![
            Token::new(TokenType::ILLEGAL),
            Token::new(TokenType::ILLEGAL),
            Token::new(TokenType::EOF),
        ]
    );
}

#[test]
fn a_form_feed_is_no_whitespace() {
    assert_eq!(
        lex("\u{c}"),
        vec![Token::new(TokenType::ILLEGAL), Token::new(TokenType::EOF)]
    );
}

#[test]
fn a_finished_scanner_gives_the_end_alone() {
    let mut lexer = Lexer::new("let a");
    assert_eq!(lexer.read().len(), 3);
    assert_eq!(lexer.read(), vec![Token::new(TokenType::EOF)]);
    assert_eq!(lexer.next_token(), None);
    assert!(lexer.is_end_of_file());
}

#[test]
fn next_token_hands_out_one_token_at_a_time() {
    let mut lexer = Lexer::new("  x == 10 ");
    assert_eq!(lexer.next_token(), Some(ident("x")));
    assert_eq!(lexer.next_token(), Some(Token::new(TokenType::EQ)));
    assert_eq!(lexer.next_token(), Some(Token::new(TokenType::INT(10))));
    assert_eq!(lexer.next_token(), None);
    assert_eq!(lexer.next_token(), None);
}

#[test]
fn next_token_leaves_the_cursor_behind_the_token() {
    let mut lexer = Lexer::new("ab;12+");
    assert_eq!(lexer.next_token(), Some(ident("ab")));
    assert_eq!(lexer.current_character(), Some(';'));
    assert_eq!(lexer.next_token(), Some(Token::new(TokenType::SEMICOLON)));
    assert_eq!(lexer.current_character(), Some('1'));
    assert_eq!(lexer.next_token(), Some(Token::new(TokenType::INT(12))));
    assert_eq!(lexer.current_character(), Some('+'));
}

#[test]
fn a_new_scanner_stands_on_the_first_character() {
    let lexer = Lexer::new("xy");
    assert_eq!(lexer.current_character(), Some('x'));
    assert_eq!(lexer.peak_char(), Some('y'));
    assert!(!lexer.is_end_of_file());

    let empty = Lexer::new("");
    assert_eq!(empty.current_character(), None);
    assert_eq!(empty.peak_char(), None);
    assert!(empty.is_end_of_file());
}

#[test]
fn a_new_scanner_has_read_nothing() {
    for input in ["", "a", "let a = 5;"] {
        let lexer = Lexer::new(input);
        assert_eq!(lexer.position(), 0);
        assert_eq!(lexer.read_position(), 1);
    }
}

#[test]
fn read_char_moves_both_offsets_by_one() {
    let mut lexer = Lexer::new("é!x");
    lexer.read_char();
    assert_eq!(lexer.position(), 1);
    assert_eq!(lexer.read_position(), 2);
    assert_eq!(lexer.current_character(), Some('!'));
    assert_eq!(lexer.peak_char(), Some('x'));
    lexer.read_char();
    assert_eq!(lexer.position(), 2);
    assert_eq!(lexer.read_position(), 3);
    assert_eq!(lexer.current_character(), Some('x'));
    assert_eq!(lexer.peak_char(), None);
    assert!(!lexer.is_end_of_file());
}

#[test]
fn read_char_counts_on_behind_the_end() {
    let mut lexer = Lexer::new("a");
    lexer.read_char();
    assert_eq!(lexer.current_character(), None);
    assert_eq!(lexer.position(), 1);
    assert_eq!(lexer.read_position(), 2);
    assert!(lexer.is_end_of_file());
    lexer.read_char();
    assert_eq!(lexer.current_character(), None);
    assert_eq!(lexer.position(), 2);
    assert_eq!(lexer.read_position(), 3);
    assert_eq!(lexer.peak_char(), None);
    assert!(lexer.is_end_of_file());

    let mut empty = Lexer::new("");
    empty.read_char();
    assert_eq!(empty.current_character(), None);
    assert_eq!(empty.position(), 1);
    assert_eq!(empty.read_position(), 2);
}

#[test]
fn scanning_behind_the_end_finds_nothing_and_moves_nothing() {
    let mut lexer = Lexer::new("ab");
    lexer.read_char();
    lexer.read_char();
    lexer.read_char();
    assert_eq!(lexer.position(), 3);
    lexer.skip_whitespace();
    assert_eq!(lexer.read_identifier(), "");
    assert_eq!(lexer.read_digit_checked(), Some(0));
    assert_eq!(lexer.next_token(), None);
    assert_eq!(lexer.read(), vec![Token::new(TokenType::EOF)]);
    assert_eq!(lexer.position(), 3);
    assert_eq!(lexer.read_position(), 4);
}

#[test]
fn the_offsets_follow_what_was_scanned() {
    let mut lexer = Lexer::new("  let x1;  ");
    assert_eq!(lexer.next_token(), Some(Token::new(TokenType::LET)));
    assert_eq!(lexer.position(), 5);
    assert_eq!(lexer.read_position(), 6);
    assert_eq!(lexer.next_token(), Some(ident("x")));
    assert_eq!(lexer.position(), 7);
    assert_eq!(lexer.next_token(), Some(Token::new(TokenType::INT(1))));
    assert_eq!(lexer.position(), 8);
    assert_eq!(lexer.next_token(), Some(Token::new(TokenType::SEMICOLON)));
    assert_eq!(lexer.position(), 9);
    assert_eq!(lexer.next_token(), None);
    assert_eq!(lexer.position(), 11);
    assert_eq!(lexer.read_position(), 12);

    let mut whole = Lexer::new("a == b");
    whole.read();
    assert_eq!(whole.position(), 6);
    assert_eq!(whole.read_position(), 7);
}

#[test]
fn skip_whitespace_stops_at_the_first_other_character() {
    let mut lexer = Lexer::new(" \t\r\n x ");
    lexer.skip_whitespace();
    assert_eq!(lexer.current_character(), Some('x'));
    lexer.skip_whitespace();
    assert_eq!(lexer.current_character(), Some('x'));
}

#[test]
fn read_identifier_returns_the_run_of_letters() {
    let mut lexer = Lexer::new("hello world");
    assert_eq!(lexer.read_identifier(), "hello");
    assert_eq!(lexer.current_character(), Some(' '));
    assert_eq!(lexer.read_identifier(), "");
    assert_eq!(lexer.current_character(), Some(' '));

    let mut whole = Lexer::new("ünïcödé");
    assert_eq!(whole.read_identifier(), "ünïcödé");
    assert_eq!(whole.current_character(), None);
}

#[test]
fn read_digit_returns_the_value_of_the_run_of_digits() {
    let mut lexer = Lexer::new("907x");
    assert_eq!(lexer.read_digit(), 907);
    assert_eq!(lexer.current_character(), Some('x'));
    assert_eq!(lexer.position(), 3);
    assert_eq!(lexer.read_digit(), 0);
    assert_eq!(lexer.current_character(), Some('x'));
    assert_eq!(lexer.position(), 3);

    let mut last = Lexer::new("42");
    assert_eq!(last.read_digit(), 42);
    assert_eq!(last.current_character(), None);

    let mut largest = Lexer::new("2147483647;");
    assert_eq!(largest.read_digit(), i32::MAX);
    assert_eq!(largest.current_character(), Some(';'));
}

#[test]
fn read_digit_checked_tells_when_the_value_does_not_fit() {
    let mut lexer = Lexer::new("907x");
    assert_eq!(lexer.read_digit_checked(), Some(907));
    assert_eq!(lexer.current_character(), Some('x'));

    let mut largest = Lexer::new("2147483647");
    assert_eq!(largest.read_digit_checked(), Some(i32::MAX));

    let mut above = Lexer::new("2147483648;");
    assert_eq!(above.read_digit_checked(), None);
    assert_eq!(above.current_character(), Some(';'));
    assert_eq!(above.position(), 10);

    let mut large = Lexer::new("4294967296;");
    assert_eq!(large.read_digit_checked(), None);
    assert_eq!(large.current_character(), Some(';'));
}

#[test]
fn lookup_identifier_knows_the_seven_keywords() {
    assert_eq!(Lexer::lookup_identifier("fn"), TokenType::FUNCTION);
    assert_eq!(Lexer::lookup_identifier("let"), TokenType::LET);
    assert_eq!(Lexer::lookup_identifier("if"), TokenType::IF);
    assert_eq!(Lexer::lookup_identifier("else"), TokenType::ELSE);
    assert_eq!(Lexer::lookup_identifier("return"), TokenType::RETURN);
    assert_eq!(Lexer::lookup_identifier("true"), TokenType::TRUE);
    assert_eq!(Lexer::lookup_identifier("false"), TokenType::FALSE);
}

#[test]
fn lookup_identifier_keeps_any_other_word() {
    assert_eq!(Lexer::lookup_identifier("fm"), TokenType::IDENT(String::from("fm")));
    assert_eq!(Lexer::lookup_identifier("f"), TokenType::IDENT(String::from("f")));
    assert_eq!(Lexer::lookup_identifier("returns"), TokenType::IDENT(String::from("returns")));
    assert_eq!(Lexer::lookup_identifier("True"), TokenType::IDENT(String::from("True")));
    assert_eq!(Lexer::lookup_identifier(""), TokenType::IDENT(String::new()));
}
