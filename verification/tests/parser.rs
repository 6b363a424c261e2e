use symboscript::parser::Parser;

fn assert_parser(source: &str, expected: &str) {
    let mut parser = Parser::new("test", source);
    let ast = parser.parse().expect("the source parses");
    assert_eq!(ast.to_text(), expected);
}

#[test]
fn binary_ops() {
    assert_parser("1+2;", "(1+2)");
    assert_parser("1-2;", "(1-2)");
    assert_parser("1*2;", "(1*2)");
    assert_parser("1/2;", "(1/2)");
    assert_parser("1%2;", "(1%2)");
    assert_parser("1^2;", "(1^2)");
    assert_parser("1&2;", "(1&2)");
    assert_parser("1|2;", "(1|2)");
    assert_parser("1<<2;", "(1<<2)");
    assert_parser("1>>2;", "(1>>2)");
    assert_parser("1==2;", "(1==2)");
    assert_parser("1!=2;", "(1!=2)");
    assert_parser("1<2;", "(1<2)");
    assert_parser("1>2;", "(1>2)");
    assert_parser("1<=2;", "(1<=2)");
    assert_parser("1>=2;", "(1>=2)");
}

#[test]
fn unary_ops() {
    assert_parser("!1;", "(!1)");
    assert_parser("~1;", "(~1)");
    assert_parser("-1;", "(-1)");
    assert_parser("++1;", "(++1)");
    assert_parser("--1;", "(--1)");
}

#[test]
fn ternary_op() {
    assert_parser("a ? b : c;", "(a ? b : c)");
    assert_parser("a ? b : c ? d : e;", "(a ? b : (c ? d : e))");
    assert_parser(
        "a ? b : c ? d : e ? f : g;",
        "(a ? b : (c ? d : (e ? f : g)))",
    );

    assert_parser("(a ? b : c) ? d : e;", "((a ? b : c) ? d : e)");
}

fn parsed(source: &str) -> String {
    Parser::new("test", source)
        .parse()
        .expect("the source parses")
        .to_text()
}

#[test]
fn statements_are_written_as_they_parse() {
    assert_eq!(parsed("let a = 1;"), "let a = 1;");
    assert_eq!(parsed("let a := b + 1;"), "let a := (b+1);");
    assert_eq!(parsed("let a;"), "let a = None;");
    assert_eq!(parsed("mut a += 2;"), "mut a += 2;");
    assert_eq!(parsed("return 1;"), "return 1;");
    assert_eq!(parsed("throw \"x\";"), "throw \"x\";");
    assert_eq!(parsed("yield 1;"), "yield 1;");
    assert_eq!(parsed("break; continue"), "break;\ncontinue;");
    assert_eq!(parsed("import lib;"), "import lib as lib;");
    assert_eq!(parsed("import \"dir/lib\" as l;"), "import dir/lib as l;");
    assert_eq!(parsed("if (a) b; else { c; }"), "if a {\nb\n} else {\nc\n}");
    assert_eq!(parsed("while (a) b;"), "while (a) {\nb\n}");
    assert_eq!(parsed("loop { a; b; }"), "loop {\na\nb\n}");
    assert_eq!(
        parsed("for (let i = 0; i < 3; i) a;"),
        "for (let i = 0; (i<3); i) {\na\n}"
    );
    assert_eq!(parsed("block { a; }"), "{\na\n}");
    assert_eq!(parsed("{ a; }"), "{\na\n}");
    assert_eq!(parsed("scope s { let a = 1; }"), "scope s {\nlet a = 1;\n}");
    assert_eq!(parsed("context c a;"), "context c {\na\n}");
    assert_eq!(
        parsed("async fn f[a, b] return a;"),
        "async fn f(a, b) {\nreturn a;\n}"
    );
    assert_eq!(parsed("fn f[] { }"), "fn f() {\n\n}");
}

#[test]
fn expressions_group_by_precedence() {
    assert_eq!(parsed("1 + 2 * 3;"), "(1+(2*3))");
    assert_eq!(parsed("1 * 2 + 3;"), "((1*2)+3)");
    assert_eq!(parsed("1 - 2 - 3;"), "((1-2)-3)");
    assert_eq!(parsed("2 ^ 3 * 4;"), "((2^3)*4)");
    assert_eq!(parsed("a < b == c;"), "((a<b)==c)");
    assert_eq!(parsed("a || b && c;"), "(a||(b&&c))");
    assert_eq!(parsed("a | b bxor c & d;"), "(a|(b bxor (c&d)))".replace(" bxor ", "bxor"));
    assert_eq!(parsed("1 << 2 + 3;"), "(1<<(2+3))");
    assert_eq!(parsed("1 .. 2 + 3;"), "(1..(2+3))");
    assert_eq!(parsed("2x;"), "(2*x)");
    assert_eq!(parsed("2 (x + 1) y;"), "((2*(x+1))*y)");
    assert_eq!(parsed("- - a;"), "(-(-a))");
    assert_eq!(parsed("!a + b;"), "((!a)+b)");
    assert_eq!(parsed("a.b.c;"), "((a.b).c)");
    assert_eq!(parsed("a.[b + 1];"), "(a.[(b+1)])");
    assert_eq!(parsed("f[1, 2].g[];"), "((f[[1, 2]]).(g[[]]))");
    assert_eq!(parsed("[1, [2], []];"), "[1, [2], []]");
    assert_eq!(parsed("1, 2;"), "[1, 2]");
    assert_eq!(parsed("await delete a;"), "(await (delete a))");
    assert_eq!(parsed("None;"), "None");
    assert_eq!(parsed("true ? \"y\" : false;"), "(true ? \"y\" : false)");
}

#[test]
fn what_does_not_parse_is_reported() {
    let missing = Parser::new("test", "let = 1;").parse().expect_err("no name");
    assert_eq!(missing.message, "Expected Identifier but got = ");
    assert_eq!((missing.start, missing.end), (4, 5));
    let open = Parser::new("test", "(1 + 2;").parse().expect_err("no closing bracket");
    assert_eq!(open.message, "Expected ) but got ; ");
    assert_eq!((open.start, open.end), (0, 7));
    let stray = Parser::new("test", "1 + ;").parse().expect_err("no operand");
    assert_eq!(stray.message, "Expected Identifier or [ but got ;");
    let assign = Parser::new("test", "mut a 1;").parse().expect_err("no operator");
    assert_eq!(assign.message, "Expected = | += | -= | *= | /= | ^= | %= but got Number");
    let lexer = Parser::new("test", "a @").parse().expect_err("unknown character");
    assert_eq!(lexer.message, "Unexpected token");
    let ast = Parser::new("test", "a; } b;").parse().expect("a closing brace ends the program");
    assert_eq!(ast.to_text(), "a");
    assert_eq!((ast.program.node.start, ast.program.node.end), (0, 7));
}

#[test]
fn a_source_is_parsed_in_one_call() {
    let ast = symboscript::parser::parse_source("test", "let a = 1; a + 2;").expect("parses");
    assert_eq!(ast.to_text(), "let a = 1;\n(a+2)");
    let failure = symboscript::parser::parse_source("f.syms", "let").expect_err("no name");
    assert_eq!(failure.path, "f.syms");
    assert_eq!(failure.source, "let");
    let methods = symboscript::native::lang::hashmap::value().expect("the methods parse");
    assert_eq!(methods.program.body.len(), 8);
    assert_eq!(
        methods.program.body[7].to_text(),
        "fn len() {\nreturn (((std.hashmap).(len[[this]]))-9);\n}"
    );
}

#[test]
fn nodes_lie_at_byte_offsets() {
    let source = "let s = \"é\"; print[s + x];";
    let ast = symboscript::parser::parse_source("t", source).expect("parses");
    let text = format!("{:?}", ast.program.body[1]);
    // `s` starts at byte 20 and `x` at byte 24: the text before them holds one character of
    // two bytes
    assert!(text.contains("Identifier { node: Node { start: 20, end: 21 }, name: \"s\" }"), "{text}");
    assert!(text.contains("Identifier { node: Node { start: 24, end: 25 }, name: \"x\" }"), "{text}");
    assert_eq!(&source[20..21], "s");
    assert_eq!(&source[24..25], "x");
}

#[test]
fn the_methods_of_a_map_are_what_their_text_parses_to() {
    let built = symboscript::native::lang::hashmap::value().expect("always there");
    let parsed = symboscript::parser::parse_source(
        "native/lang/hashmap.syms",
        symboscript::native::lang::hashmap::METHODS,
    )
    .expect("the methods parse");
    assert_eq!(format!("{:?}", built), format!("{:?}", parsed));
}

#[test]
fn a_text_without_tokens_parses() {
    for source in ["", " \n\t ", "# only a comment\n", " #/ a longer\n comment /# \n"] {
        let ast = symboscript::parser::parse_source("f.syms", source).expect("nothing to refuse");
        assert!(ast.program.body.is_empty(), "{source:?}");
        assert_eq!((ast.program.node.start, ast.program.node.end), (0, source.len()));
    }
    let wide = symboscript::parser::parse_source("f.syms", "# é\n").expect("parses");
    assert_eq!(wide.program.node.end, 5);
}

#[test]
fn parsing_stops_where_the_grammar_says() {
    // the lexer cannot read on
    let lexical = symboscript::parser::parse_source("f", "a + @;").expect_err("no token");
    assert_eq!((lexical.start, lexical.end), (4, 5));
    // a token of another kind stands where one is expected
    let missing = symboscript::parser::parse_source("f", "let = 1;").expect_err("no name");
    assert!(missing.message.starts_with("Expected Identifier but got"), "{}", missing.message);
    let open = symboscript::parser::parse_source("f", "f[1, 2;").expect_err("no bracket");
    assert!(open.message.starts_with("Expected ] but got"), "{}", open.message);
    let no_init = symboscript::parser::parse_source("f", "for (let i; i < 1; i) { }")
        .expect_err("a declaration without a value");
    assert!(no_init.message.starts_with("Expected Assign or FormulaAssign"), "{}", no_init.message);
    // and what is well formed is read
    for source in ["f[];", "f[1];", "f[1, 2];", "a.b[c].d;", "mut a += 1;", "import x as y;"] {
        assert!(symboscript::parser::parse_source("f", source).is_ok(), "{source}");
    }
}
