use symboscript::formatter::Formatter;
use symboscript::lexer::Lexer;
use symboscript::optimizer::optimize;
use symboscript::parser::Parser;
use symboscript::report::report_error;
use symboscript::token::{Token, TokenKind, TokenValue};
use symboscript::utils::{output_tokens_colored, Paint};

fn optimized_text(source: &str) -> String {
    let ast = Parser::new("test", source).parse().expect("parses");
    optimize(&ast).to_text()
}

#[test]
fn the_optimizer_folds_operations_between_literals() {
    assert_eq!(optimized_text("1+2;"), "3");
    assert_eq!(optimized_text("1+2*3;"), "7");
    assert_eq!(optimized_text("(8-2)/3;"), "2");
    assert_eq!(optimized_text("\"a\"+1;"), "\"a1\"");
    assert_eq!(optimized_text("\"ab\"*2;"), "\"abab\"");
    assert_eq!(optimized_text("true+false;"), "true");
}

#[test]
fn the_optimizer_leaves_the_rest_as_it_is() {
    assert_eq!(optimized_text("x+2;"), "(x+2)");
    assert_eq!(optimized_text("1+2+x;"), "(3+x)");
    assert_eq!(optimized_text("x+1+2;"), "((x+1)+2)");
    assert_eq!(optimized_text("2^3;"), "(2^3)");
    assert_eq!(optimized_text("1<2;"), "(1<2)");
    assert_eq!(optimized_text("f[1+2];"), "(f[[(1+2)]])");
    assert_eq!(optimized_text("let a = 1 + 2;"), "let a = (1+2);");
    assert_eq!(optimized_text("1/0;"), "");
}

#[test]
fn the_optimizer_keeps_the_spans_of_what_it_folds() {
    let ast = Parser::new("test", "10 + 20;").parse().expect("parses");
    let optimized = optimize(&ast);
    assert_eq!(optimized.program.node, ast.program.node);
    match &optimized.program.body[0] {
        symboscript::ast::Statement::ExpressionStatement(
            symboscript::ast::Expression::Literal(literal),
        ) => {
            assert_eq!((literal.node.start, literal.node.end), (0, 7));
            assert!(matches!(literal.value, TokenValue::Number(30)));
        }
        _ => panic!("the statement is no literal"),
    }
}

#[test]
fn the_formatter_puts_each_statement_on_a_line() {
    let source = "let x = 1; print [ x ] ;";
    let mut formatter = Formatter::of("test", source);
    assert_eq!(formatter.format().expect("lexes"), "let x=1;\nprint[x];\n");
}

#[test]
fn the_formatter_indents_the_statements_between_brackets() {
    let source = "{ let x = 1; { x; } }";
    let mut formatter = Formatter::new(source, Lexer::with_comments("test", source));
    assert_eq!(
        formatter.format().expect("lexes"),
        "{\n    let x=1;\n{\n        x;\n}\n}\n"
    );
}

#[test]
fn the_formatter_keeps_comments() {
    let source = "# note\nx;";
    let mut formatter = Formatter::of("test", source);
    assert_eq!(formatter.format().expect("lexes"), "# note\nx;\n");
}

#[test]
fn the_formatter_reports_what_the_lexer_cannot_read() {
    let source = "x; @";
    let mut formatter = Formatter::of("test", source);
    let failure = formatter.format().expect_err("an unknown character");
    assert_eq!(failure.message, "Unexpected token");
    assert_eq!((failure.start, failure.end), (3, 4));
}

#[test]
fn tokens_are_cut_out_in_their_colours() {
    let text = "let x = \"s\"; # c";
    let tokens = Lexer::with_comments("test", text).tokenize().expect("lexes");
    let pieces = output_tokens_colored(text, &tokens, false);
    let joined: String = pieces.iter().map(|p| p.text.as_str()).collect();
    assert_eq!(joined, text);
    let paints: Vec<Paint> = pieces.iter().map(|p| p.paint).collect();
    assert_eq!(
        paints,
        vec![
            Paint::Plain,
            Paint::Keyword,
            Paint::Plain,
            Paint::Name,
            Paint::Plain,
            Paint::Operator,
            Paint::Plain,
            Paint::Text,
            Paint::Plain,
            Paint::Plain,
            Paint::Plain,
            Paint::Comment,
            Paint::Plain,
        ]
    );
    let shown = output_tokens_colored(text, &tokens, true);
    assert_eq!(shown[1].text, "<let>");
    assert_eq!(shown[7].text, "<\"s\">");
}

#[test]
fn tokens_out_of_place_are_cut_to_what_is_left() {
    let text = "abc";
    let tokens = vec![
        Token { kind: TokenKind::Identifier, start: 1, end: 9, value: TokenValue::Absent },
        Token { kind: TokenKind::Number, start: 0, end: 2, value: TokenValue::Absent },
    ];
    let pieces = output_tokens_colored(text, &tokens, false);
    let texts: Vec<&str> = pieces.iter().map(|p| p.text.as_str()).collect();
    assert_eq!(texts, vec!["a", "bc", "", "", ""]);
}

fn std_place(source: &str, start: usize, end: usize) -> (usize, usize, usize, usize) {
    // the same count with the tools of the standard library, on texts of one-byte characters
    let line_start = std::cmp::max(source[..start].lines().count(), 1);
    let line_end = std::cmp::max(source[..end].lines().count(), 1);
    let mut column_start = start - source[..start].rfind('\n').unwrap_or(0);
    let mut column_end = end - source[..end].rfind('\n').unwrap_or(0);
    if line_start == 1 || line_end == 1 {
        column_end += 1;
        column_start += 1;
    }
    if column_end < column_start {
        column_end = column_start;
    }
    (line_start, column_start, line_end, column_end)
}

#[test]
fn a_report_counts_lines_and_columns() {
    let source = "let a = 1;\nlet b = oops;\n\nprint[a];\r\n";
    for start in 0..=source.len() {
        for end in start..=source.len() {
            let report = report_error("f.syms", source, "m", start, end);
            assert_eq!(
                (report.line_start, report.column_start, report.line_end, report.column_end),
                std_place(source, start, end),
                "at {start}..{end}"
            );
        }
    }
}

#[test]
fn a_report_shows_the_line_and_points_at_the_place() {
    let source = "let a = 1;\nlet b = oops;  \nprint[a];";
    let report = report_error("f.syms", source, "Variable `oops` not found\nsecond line", 19, 23);
    assert_eq!(report.header, "--> f.syms:2:9-2:13 (19 - 23)");
    assert_eq!(report.gutter, "2 |");
    assert_eq!(report.near, "let b = oops;");
    assert_eq!(report.pointer, format!("{}{}", " ".repeat(12), "^".repeat(4)));
    assert_eq!(
        report.message,
        format!("Variable `oops` not found\n{} second line", " ".repeat(16))
    );
    assert!(report.context.is_empty());

    let wide = report_error("f.syms", source, "m", 4, 30);
    assert_eq!(wide.header, "--> f.syms:1:5-3:5 (4 - 30)");
    assert_eq!(wide.context, vec!["1 | let a = 1;", "2 | let b = oops;"]);
    assert_eq!(wide.near, "print[a];");

    let beyond = report_error("f.syms", "ab", "m", 7, 9);
    assert_eq!((beyond.line_start, beyond.column_start), (1, 3));
    assert_eq!(beyond.header, "--> f.syms:1:3-1:3 (2 - 2)");
}

#[test]
fn a_report_shows_lines_without_the_blanks_at_their_end() {
    let source = "first \t\r\n\nthird line  ";
    let all = report_error("f.syms", source, "m", 0, source.len());
    assert_eq!((all.line_start, all.line_end), (1, 3));
    assert_eq!(all.context, vec!["1 | first", "2 | "]);
    assert_eq!(all.near, "third line");
    let empty = report_error("f.syms", "", "m", 0, 0);
    assert_eq!(empty.near, "");
    assert!(empty.context.is_empty());
}

#[test]
fn a_report_takes_offsets_in_bytes() {
    let source = "é = oops;\nλλ = 1";
    let first = report_error("f.syms", source, "m", 5, 9);
    assert_eq!(&source[5..9], "oops");
    assert_eq!(first.header, "--> f.syms:1:6-1:10 (5 - 9)");
    assert_eq!(first.near, "é = oops;");
    assert_eq!((first.line_start, first.column_start, first.line_end, first.column_end), (1, 6, 1, 10));
    assert_eq!(
        (first.line_start, first.column_start, first.line_end, first.column_end),
        std_place(source, 5, 9)
    );
    let second = report_error("f.syms", source, "m", 18, 19);
    assert_eq!(&source[18..19], "1");
    assert_eq!(second.near, "λλ = 1");
    assert_eq!(
        (second.line_start, second.column_start, second.line_end, second.column_end),
        std_place(source, 18, 19)
    );
    assert_eq!(second.header, "--> f.syms:2:8-2:9 (18 - 19)");
}

#[test]
fn tokens_at_byte_offsets_are_cut_out_whole() {
    let text = "\"é√\" + x";
    let tokens = Lexer::new("t", text).tokenize().expect("lexes");
    let pieces = output_tokens_colored(text, &tokens, false);
    let all: String = pieces.iter().map(|p| p.text.as_str()).collect();
    assert_eq!(all, text);
    assert_eq!(pieces[1].text, "\"é√\"");
    assert_eq!(pieces[1].paint, Paint::Text);
    assert_eq!(pieces[3].text, "+");
    assert_eq!(pieces[5].text, "x");
}
