use asm_parser::lexer::{LexError, Lexer, Operator, Token};

fn all_tokens(text: &str) -> Vec<Result<Token, LexError>> {
    let mut l = Lexer::new(text);
    let mut out = Vec::new();
    loop {
        let t = l.parse_token();
        let done = matches!(t, Ok(Token::EOF) | Err(_));
        out.push(t);
        if done {
            return out;
        }
    }
}

#[test]
fn test_consume() {
    let mut l = Lexer::new("A String");
    assert!(l.cur().is_some());
    assert_eq!(l.cur(), Some('A'));
    l.consume();
    assert_eq!(l.cur(), Some(' '));
    l.consume();
    assert_eq!(l.cur(), Some('S'));
    l.consume();
    assert_eq!(l.cur(), Some('t'));
    l.consume();
    assert_eq!(l.cur(), Some('r'));
    l.consume();
    assert_eq!(l.cur(), Some('i'));
    l.consume();
    assert_eq!(l.cur(), Some('n'));
    l.consume();
    assert_eq!(l.cur(), Some('g'));
}

#[test]
fn test_ident() {
    let mut l = Lexer::new(".label");
    let token = l.parse_token();
    assert_eq!(token, Ok(Token::Ident(".label".to_owned(), 0, 6)));
    let mut l = Lexer::new(" .label ");
    let token = l.parse_token();
    assert_eq!(token, Ok(Token::Ident(".label".to_owned(), 0, 8)));
    let mut l = Lexer::new(".l");
    let token = l.parse_token();
    assert_eq!(token, Ok(Token::Ident(".l".to_owned(), 0, 2)));
    let mut l = Lexer::new(".1");
    let token = l.parse_token();
    assert_eq!(token, Ok(Token::Ident(".1".to_owned(), 0, 2)));
    let mut l = Lexer::new(" .1 ");
    let token = l.parse_token();
    assert_eq!(token, Ok(Token::Ident(".1".to_owned(), 0, 4)));
}

#[test]
fn test_register() {
    let mut l = Lexer::new("%r1");
    let token = l.parse_token();
    assert_eq!(token, Ok(Token::REGISTER("%r1".to_owned(), 0, 3)));
    let mut l = Lexer::new("r1");
    let s = String::from("%");
    let token = l.register(s);
    assert_eq!(token, Ok(Token::REGISTER("%r1".to_owned(), 0, 2)))
}

// A newline that ends a token is consumed with it, so the token reports the
// start of the next row: `.main` at row 1, column 0, and the final `1` at row 4.
#[test]
fn test_parse_token() {
    let mut l = Lexer::new(
        "\
            .main\n
            add %r1 %r2
            SUB %r1 1
        ",
    );
    let token = l.parse_token();
    assert_eq!(token, Ok(Token::Ident(".main".to_owned(), 1, 0)));
    let token = l.parse_token();
    assert_eq!(token, Ok(Token::Op(Operator::ADD, 2, 16)));
    let token = l.parse_token();
    assert_eq!(token, Ok(Token::REGISTER("%r1".to_owned(), 2, 19)));
    let token = l.parse_token();
    assert_eq!(token, Ok(Token::REGISTER("%r2".to_owned(), 2, 23)));
    let token = l.parse_token();
    assert_eq!(token, Ok(Token::Op(Operator::SUB, 3, 16)));
    let token = l.parse_token();
    assert_eq!(token, Ok(Token::REGISTER("%r1".to_owned(), 3, 19)));
    let token = l.parse_token();
    assert_eq!(token, Ok(Token::IMMEDIATE("1".to_owned(), 4, 0)));
}

#[test]
fn consume_counts_columns_on_one_row() {
    let mut l = Lexer::new("A String");
    for step in 1..=8u32 {
        l.consume();
        assert_eq!(l.row(), 0);
        assert_eq!(l.col(), step);
    }
    assert_eq!(l.cur(), None);
    l.consume();
    assert_eq!(l.col(), 8);
}

#[test]
fn consume_moves_to_next_row_after_newline() {
    let mut l = Lexer::new("ab\ncd");
    l.consume();
    l.consume();
    assert_eq!((l.row(), l.col()), (0, 2));
    l.consume();
    assert_eq!((l.row(), l.col()), (1, 0));
    assert_eq!(l.cur(), Some('c'));
}

#[test]
fn immediate_takes_every_digit() {
    let mut l = Lexer::new("  12345 7");
    assert_eq!(l.parse_token(), Ok(Token::IMMEDIATE("12345".to_owned(), 0, 8)));
    assert_eq!(l.parse_token(), Ok(Token::IMMEDIATE("7".to_owned(), 0, 9)));
    assert_eq!(l.parse_token(), Ok(Token::EOF));
}

#[test]
fn immediate_with_letter_is_rejected() {
    let mut l = Lexer::new("12a3");
    assert_eq!(l.parse_token(), Err(LexError::ExpectedDigit('a', 0, 3)));
}

#[test]
fn immediate_accepts_other_numeric_characters() {
    let mut l = Lexer::new("\u{663}4");
    assert_eq!(l.parse_token(), Ok(Token::IMMEDIATE("\u{663}4".to_owned(), 0, 2)));
}

#[test]
fn register_followed_by_space_leaves_it() {
    let mut l = Lexer::new("%a9 ");
    assert_eq!(l.parse_token(), Ok(Token::REGISTER("%a9".to_owned(), 0, 3)));
    assert_eq!(l.col(), 3);
    assert_eq!(l.parse_token(), Ok(Token::EOF));
    assert_eq!(l.col(), 4);
}

#[test]
fn register_accepts_non_ascii_letter() {
    let mut l = Lexer::new("%\u{e9}1");
    assert_eq!(l.parse_token(), Ok(Token::REGISTER("%\u{e9}1".to_owned(), 0, 3)));
}

#[test]
fn malformed_registers_are_rejected() {
    assert_eq!(all_tokens("%"), vec![Err(LexError::MalformedRegister(None, 0, 1))]);
    assert_eq!(all_tokens("%11"), vec![Err(LexError::MalformedRegister(Some('1'), 0, 2))]);
    assert_eq!(all_tokens("% r1"), vec![Err(LexError::MalformedRegister(Some(' '), 0, 2))]);
    assert_eq!(all_tokens("%r"), vec![Err(LexError::MalformedRegister(None, 0, 2))]);
    assert_eq!(all_tokens("%rx"), vec![Err(LexError::MalformedRegister(Some('x'), 0, 3))]);
    assert_eq!(all_tokens("%r12"), vec![Err(LexError::MalformedRegister(Some('2'), 0, 3))]);
}

#[test]
fn empty_labels_are_rejected() {
    assert_eq!(all_tokens("."), vec![Err(LexError::EmptyLabel(0, 1))]);
    assert_eq!(all_tokens("  . x"), vec![Err(LexError::EmptyLabel(0, 3))]);
}

#[test]
fn label_keeps_every_character_up_to_whitespace() {
    let mut l = Lexer::new(".a%b.c\tnext");
    assert_eq!(l.parse_token(), Ok(Token::Ident(".a%b.c".to_owned(), 0, 7)));
}

#[test]
fn mnemonics_follow_their_letter_case_rules() {
    assert_eq!(all_tokens("ADD")[0], Ok(Token::Op(Operator::ADD, 0, 3)));
    assert_eq!(all_tokens("Sub")[0], Ok(Token::Op(Operator::SUB, 0, 3)));
    assert_eq!(all_tokens("mov")[0], Ok(Token::Op(Operator::MOV, 0, 3)));
    assert_eq!(all_tokens("EQ")[0], Ok(Token::Op(Operator::EQ, 0, 2)));
    assert_eq!(all_tokens("NEQ")[0], Ok(Token::Op(Operator::NEQ, 0, 3)));
    assert_eq!(all_tokens("JMP")[0], Ok(Token::Op(Operator::JMP, 0, 3)));
    assert_eq!(
        all_tokens("eq")[0],
        Err(LexError::UnknownOperator("eq".to_owned(), 0, 2))
    );
    assert_eq!(
        all_tokens("jmp ")[0],
        Err(LexError::UnknownOperator("jmp".to_owned(), 0, 4))
    );
    assert_eq!(
        all_tokens("halt")[0],
        Err(LexError::UnknownOperator("halt".to_owned(), 0, 4))
    );
}

#[test]
fn from_mnemonic_resolves_operators() {
    assert_eq!(Operator::from_mnemonic("aDd"), Some(Operator::ADD));
    assert_eq!(Operator::from_mnemonic("MOV"), Some(Operator::MOV));
    assert_eq!(Operator::from_mnemonic("NEQ"), Some(Operator::NEQ));
    assert_eq!(Operator::from_mnemonic("Neq"), None);
    assert_eq!(Operator::from_mnemonic(""), None);
}

#[test]
fn from_words_reads_the_table() {
    assert_eq!(Operator::from_words("add", "ADD"), Some(Operator::ADD));
    assert_eq!(Operator::from_words("sub", "sub"), Some(Operator::SUB));
    assert_eq!(Operator::from_words("mov", "Mov"), Some(Operator::MOV));
    assert_eq!(Operator::from_words("eq", "EQ"), Some(Operator::EQ));
    assert_eq!(Operator::from_words("neq", "NEQ"), Some(Operator::NEQ));
    assert_eq!(Operator::from_words("jmp", "JMP"), Some(Operator::JMP));
    assert_eq!(Operator::from_words("eq", "eq"), None);
    assert_eq!(Operator::from_words("jmp", "Jmp"), None);
    assert_eq!(Operator::from_words("halt", "HALT"), None);
}

#[test]
fn unicode_whitespace_separates_tokens() {
    let mut l = Lexer::new("\u{3000}%r1\u{a0}%r2");
    assert_eq!(l.parse_token(), Ok(Token::REGISTER("%r1".to_owned(), 0, 4)));
    assert_eq!(l.parse_token(), Ok(Token::REGISTER("%r2".to_owned(), 0, 8)));
}

#[test]
fn two_lexers_on_one_text_agree() {
    let text = ".start\nadd %r1 %r2\n  mov %a0 %b1\n";
    let first = all_tokens(text);
    let second = all_tokens(text);
    assert_eq!(first.len(), 8);
    assert_eq!(first, second);
}

#[test]
fn end_of_input_is_stable() {
    let mut l = Lexer::new(" .x \n ");
    assert_eq!(l.parse_token(), Ok(Token::Ident(".x".to_owned(), 0, 4)));
    assert_eq!(l.parse_token(), Ok(Token::EOF));
    let place = (l.row(), l.col());
    assert_eq!(place, (1, 1));
    for _ in 0..3 {
        assert_eq!(l.parse_token(), Ok(Token::EOF));
        assert_eq!((l.row(), l.col()), place);
    }
}

#[test]
fn empty_text_yields_end_of_input() {
    let mut l = Lexer::new("");
    assert_eq!(l.cur(), None);
    assert_eq!(l.parse_token(), Ok(Token::EOF));
}
