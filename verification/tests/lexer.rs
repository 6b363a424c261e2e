use symboscript::lexer::Lexer;
use symboscript::token::{TokenKind, TokenValue};

#[test]
fn plus() {
    let mut lexer = Lexer::new("./test.syms", "2x^2 + 2y^2 == 2");
    let tokens = lexer.tokenize().expect("the source has only known tokens");
    let kinds: Vec<TokenKind> = tokens.iter().map(|t| t.kind).collect();
    assert_eq!(
        kinds,
        vec![
            TokenKind::Number,
            TokenKind::Identifier,
            TokenKind::Caret,
            TokenKind::Number,
            TokenKind::Plus,
            TokenKind::Number,
            TokenKind::Identifier,
            TokenKind::Caret,
            TokenKind::Number,
            TokenKind::Equal,
            TokenKind::Number,
        ]
    );
    assert!(matches!(tokens[0].value, TokenValue::Number(2)));
    assert!(matches!(&tokens[1].value, TokenValue::Identifier(name) if name == "x"));
    assert_eq!((tokens[4].start, tokens[4].end), (5, 6));
}

fn kinds(source: &str) -> Vec<TokenKind> {
    Lexer::new("t", source)
        .tokenize()
        .expect("lexes")
        .iter()
        .map(|t| t.kind)
        .collect()
}

#[test]
fn operators_take_the_longest_form() {
    assert_eq!(
        kinds("+ ++ += - -- -= * *= / /= ^ ^= % %= & && | || ~ ? = == ! != < <= << > >= >> : := . .. ; ,"),
        vec![
            TokenKind::Plus,
            TokenKind::PlusPlus,
            TokenKind::PlusAssign,
            TokenKind::Minus,
            TokenKind::MinusMinus,
            TokenKind::MinusAssign,
            TokenKind::Star,
            TokenKind::MultiplyAssign,
            TokenKind::Slash,
            TokenKind::DivideAssign,
            TokenKind::Caret,
            TokenKind::PowerAssign,
            TokenKind::Modulo,
            TokenKind::ModuloAssign,
            TokenKind::Ampersand,
            TokenKind::AmpersandAmpersand,
            TokenKind::Pipe,
            TokenKind::PipePipe,
            TokenKind::Tilde,
            TokenKind::Question,
            TokenKind::Assign,
            TokenKind::Equal,
            TokenKind::ExclamationMark,
            TokenKind::NotEqual,
            TokenKind::Less,
            TokenKind::LessEqual,
            TokenKind::BitLeftShift,
            TokenKind::Greater,
            TokenKind::GreaterEqual,
            TokenKind::BitRightShift,
            TokenKind::Colon,
            TokenKind::FormulaAssign,
            TokenKind::Dot,
            TokenKind::Range,
            TokenKind::Semicolon,
            TokenKind::Comma,
        ]
    );
    assert_eq!(
        kinds("( ) { } [ ]"),
        vec![
            TokenKind::LParen,
            TokenKind::RParen,
            TokenKind::LAngle,
            TokenKind::RAngle,
            TokenKind::LSquare,
            TokenKind::RSquare,
        ]
    );
}

#[test]
fn words_are_keywords_or_identifiers() {
    assert_eq!(
        kinds("true false None if else while loop for let fn scope context return yield break continue throw in of delete mut block import as async await"),
        vec![
            TokenKind::True,
            TokenKind::False,
            TokenKind::NoneLiteral,
            TokenKind::If,
            TokenKind::Else,
            TokenKind::While,
            TokenKind::Loop,
            TokenKind::For,
            TokenKind::Let,
            TokenKind::Function,
            TokenKind::Scope,
            TokenKind::Context,
            TokenKind::Return,
            TokenKind::Yield,
            TokenKind::Break,
            TokenKind::Continue,
            TokenKind::Throw,
            TokenKind::In,
            TokenKind::Of,
            TokenKind::Delete,
            TokenKind::Mut,
            TokenKind::Block,
            TokenKind::Import,
            TokenKind::As,
            TokenKind::Async,
            TokenKind::Await,
        ]
    );
    assert_eq!(
        kinds("band bxor bor bnot bshl bshr xor and or not"),
        vec![
            TokenKind::Ampersand,
            TokenKind::BitXor,
            TokenKind::Pipe,
            TokenKind::Tilde,
            TokenKind::BitLeftShift,
            TokenKind::BitRightShift,
            TokenKind::Xor,
            TokenKind::AmpersandAmpersand,
            TokenKind::PipePipe,
            TokenKind::ExclamationMark,
        ]
    );
    assert_eq!(
        kinds("iff lets _x x1 True"),
        vec![TokenKind::Identifier; 5]
    );
}

#[test]
fn strings_reach_to_their_closing_quote() {
    let tokens = Lexer::new("t", r#""a\"b" 'c' `d"e` "#).tokenize().expect("lexes");
    let texts: Vec<String> = tokens
        .iter()
        .map(|t| match &t.value {
            TokenValue::Str(s) => s.clone(),
            _ => panic!("a string has a text"),
        })
        .collect();
    assert_eq!(texts, vec![r#"a\"b"#, "c", "d\"e"]);
    assert_eq!((tokens[0].start, tokens[0].end), (0, 6));
    let open = Lexer::new("t", "\"never closed").tokenize().expect_err("no closing quote");
    assert_eq!(open.message, "Unexpected token");
    assert_eq!((open.start, open.end), (0, 13));
}

#[test]
fn comments_are_passed_over_or_handed_out() {
    let source = "a # to the end\nb #/ over\nlines /# c #/ open";
    assert_eq!(kinds(source), vec![TokenKind::Identifier; 3]);
    let kept = Lexer::with_comments("t", source).tokenize().expect("lexes");
    let kept_kinds: Vec<TokenKind> = kept.iter().map(|t| t.kind).collect();
    assert_eq!(
        kept_kinds,
        vec![
            TokenKind::Identifier,
            TokenKind::Comment,
            TokenKind::Identifier,
            TokenKind::DocComment,
            TokenKind::Identifier,
            TokenKind::Comment,
        ]
    );
    assert!(matches!(&kept[3].value, TokenValue::Str(s) if s == "#/ over\nlines /#"));
    assert!(matches!(&kept[1].value, TokenValue::Str(s) if s == "# to the end\n"));
}

#[test]
fn numbers_are_whole_and_fit() {
    let tokens = Lexer::new("t", "0 007 9223372036854775807").tokenize().expect("lexes");
    assert!(matches!(tokens[0].value, TokenValue::Number(0)));
    assert!(matches!(tokens[1].value, TokenValue::Number(7)));
    assert!(matches!(tokens[2].value, TokenValue::Number(i64::MAX)));
    let large = Lexer::new("t", "9223372036854775808").tokenize().expect_err("too large");
    assert_eq!(large.message, "Number is too large");
    let fraction = Lexer::new("t", "x 1.5e3 y").tokenize().expect_err("a fraction");
    assert_eq!(fraction.message, "Only whole numbers are supported");
    assert_eq!((fraction.start, fraction.end), (2, 7));
    let leading = Lexer::new("t", ".5").tokenize().expect_err("a fraction");
    assert_eq!((leading.start, leading.end), (0, 2));
    assert_eq!(kinds("1..5"), vec![TokenKind::Number, TokenKind::Range, TokenKind::Number]);
    assert_eq!(kinds("1.e"), vec![TokenKind::Number, TokenKind::Dot, TokenKind::Identifier]);
    let unknown = Lexer::new("t", "a @ b").tokenize().expect_err("unknown character");
    assert_eq!(unknown.message, "Unexpected token");
    assert_eq!((unknown.start, unknown.end, unknown.path.as_str()), (2, 3, "t"));
}

#[test]
fn the_lexer_reads_character_by_character() {
    let mut lexer = Lexer::new("t", "ab  c");
    assert_eq!(lexer.len(), 5);
    assert_eq!(lexer.peek(), Some('a'));
    assert_eq!(lexer.peek_two(), Some('b'));
    assert_eq!(lexer.next(), Some('a'));
    assert!(!lexer.eat('x'));
    assert!(lexer.eat('b'));
    lexer.skip_trivia();
    assert_eq!(lexer.offset(), 4);
    assert_eq!(lexer.next(), Some('c'));
    assert_eq!(lexer.next(), None);
    assert_eq!(lexer.peek(), None);
    let end = lexer.next_token().expect("the end is a token");
    assert_eq!(end.kind, TokenKind::Eof);
    assert_eq!(lexer.next_token().expect("again").kind, TokenKind::Eof);
}

#[test]
fn offsets_count_bytes() {
    let mut lexer = Lexer::new("t", "é=λx");
    assert_eq!(lexer.offset(), 0);
    assert_eq!(lexer.next(), Some('é'));
    assert_eq!(lexer.offset(), 2);
    assert!(!lexer.eat('λ'));
    assert_eq!(lexer.offset(), 2);
    assert!(lexer.eat('='));
    assert_eq!(lexer.offset(), 3);
    assert!(lexer.eat('λ'));
    assert_eq!(lexer.offset(), 5);
    assert_eq!(lexer.next(), Some('x'));
    assert_eq!(lexer.offset(), 6);
    assert_eq!(lexer.next(), None);
    assert_eq!(lexer.offset(), 6);
    assert_eq!(lexer.len(), 4);
}

#[test]
fn tokens_lie_at_byte_offsets() {
    let source = "\"é√\" + x # ü\nyz";
    let tokens = Lexer::new("t", source).tokenize().expect("lexes");
    let places: Vec<(TokenKind, usize, usize)> =
        tokens.iter().map(|t| (t.kind, t.start, t.end)).collect();
    assert_eq!(
        places,
        vec![
            (TokenKind::Str, 0, 7),
            (TokenKind::Plus, 8, 9),
            (TokenKind::Identifier, 10, 11),
            (TokenKind::Identifier, 17, 19),
        ]
    );
    for token in &tokens {
        assert!(source.is_char_boundary(token.start) && source.is_char_boundary(token.end));
    }
    assert_eq!(&source[tokens[0].start..tokens[0].end], "\"é√\"");
    match &tokens[0].value {
        TokenValue::Str(content) => assert_eq!(content, "é√"),
        other => panic!("a text was expected, not {other:?}"),
    }
    assert_eq!(&source[tokens[3].start..tokens[3].end], "yz");

    let failure = Lexer::new("t", "\"é\" @ b").tokenize().expect_err("unknown character");
    assert_eq!((failure.start, failure.end), (5, 6));
    let wide = Lexer::new("t", "a é").tokenize().expect_err("no letter of the language");
    assert_eq!((wide.start, wide.end), (2, 4));
}
