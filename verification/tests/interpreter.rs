use symboscript::interpreter::Interpreter;
use symboscript::parser::Parser;
use symboscript::report::Diagnostic;

fn run_source(source: &str) -> Result<String, Diagnostic> {
    let ast = Parser::new("main.syms", source).parse()?;
    let mut interpreter = Interpreter::new("main.syms", source, &ast)?;
    interpreter.run()?;
    Ok(interpreter.output_text())
}

fn printed(source: &str) -> String {
    match run_source(source) {
        Ok(text) => text,
        Err(d) => panic!("evaluation failed: {}", d.message),
    }
}

#[test]
fn map_set_then_get_prints_the_value() {
    let out = printed("let m = std.hashmap.new[]; m.set[\"k\", 5]; print[m.get[\"k\"]];");
    assert_eq!(out, "5 ");
}

#[test]
fn map_get_of_a_missing_key_is_none() {
    let out = printed("let m = std.hashmap.new[]; print[m.get[\"missing\"]];");
    assert_eq!(out, "None ");
}

#[test]
fn map_methods_work_together() {
    let out = printed(
        "let m = std.hashmap.new[];
         m.set[\"a\", 1]; m.set[\"b\", 2]; m.set[7, \"seven\"];
         println[m.len[], m.has[\"a\"], m.has[\"z\"], m.get[7]];
         m.del[\"a\"];
         println[m.len[], m.has[\"a\"], m.keys[], m.values[]];
         m.clear[];
         println[m.len[], m.keys[]];",
    );
    assert_eq!(
        out,
        "3 true false seven \n2 false [b, 7] [2, seven] \n0 [] \n"
    );
}

#[test]
fn recursive_calls_keep_their_own_bindings() {
    let out = printed(
        "fn f[n] { let x = n; if (n > 0) { f[n - 1]; } return x; }
         println[f[3], f[0]];",
    );
    assert_eq!(out, "3 0 \n");
}

#[test]
fn a_deeper_call_does_not_clobber_the_caller() {
    let out = printed(
        "fn depth[n] { let mine = n * 10; if (n < 3) { let below = depth[n + 1]; } return mine; }
         print[depth[1]];",
    );
    assert_eq!(out, "10 ");
}

#[test]
fn literal_arithmetic() {
    assert_eq!(printed("print[1+2];"), "3 ");
    assert_eq!(printed("print[\"a\"+1];"), "a1 ");
    assert_eq!(printed("print[1+\"a\"];"), "1a ");
    assert_eq!(printed("print[true+true];"), "true ");
    assert_eq!(printed("print[2^10];"), "1024 ");
    assert_eq!(printed("print[1..5];"), "[1, 2, 3, 4, 5] ");
}

#[test]
fn more_operators() {
    assert_eq!(printed("print[7 - 10, 6 * 7, 7 / 2, 7 % 3, 0 - 7 / 2];"), "-3 42 3 1 -3 ");
    assert_eq!(printed("print[\"ab\" * 3, 2 * \"xy\"];"), "ababab xyxy ");
    assert_eq!(printed("print[1 / 0, 1 + true, \"x\" - 1];"), "None None None ");
    assert_eq!(printed("print[1 < 2, 2 < 1, 2 <= 2, 3 > 2, 2 >= 3, 1 == 1, 1 != 1];"),
        "true false true true false true false ");
    assert_eq!(printed("print[6 & 3, 6 | 3, 6 bxor 3, 1 << 4, 256 >> 4];"), "2 7 5 16 16 ");
    assert_eq!(printed("print[true && false, true || false, true xor true];"), "false true false ");
    assert_eq!(printed("print[-5, !0, !1, ++1, --1, !true];"), "-5 true false 2 0 false ");
    assert_eq!(printed("print[2 3, 2 (3 + 4)];"), "6 14 ");
    assert_eq!(printed("print[1 ? 2 : 3]; print[0 ? 2 : 3];"), "2 3 ");
}

#[test]
fn truthiness_selects_the_branch() {
    let out = printed(
        "fn t[v] { if (v) { return \"yes\"; } else { return \"no\"; } }
         scope s { let a = 1; }
         let empty = [];
         print[t[None], t[0], t[\"\"], t[\"x\"], t[empty], t[s], t[5], t[0 - 1], t[true], t[false]];",
    );
    assert_eq!(out, "no no yes yes yes yes yes yes yes no ");
}

#[test]
fn an_alias_of_a_scope_sees_what_is_set_through_it() {
    let out = printed(
        "let m = std.hashmap.new[];
         let alias = m;
         alias.set[\"field\", 42];
         print[m.get[\"field\"], m == alias];",
    );
    assert_eq!(out, "42 true ");
}

#[test]
fn a_scope_is_gone_when_its_block_has_exited() {
    let failure = run_source(
        "let keep = None;
         { scope inner { let x = 1; } mut keep = inner; print[keep.x]; }
         print[keep.x];",
    )
    .expect_err("the handle is stale");
    assert_eq!(failure.message, "The scope is no longer alive");
}

#[test]
fn a_scope_is_alive_inside_its_block() {
    let out = printed(
        "let keep = None;
         { scope inner { let x = 1; } mut keep = inner; print[keep.x]; }",
    );
    assert_eq!(out, "1 ");
}

#[test]
fn loops_and_control_flow() {
    let out = printed(
        "let i = 0; let sum = 0;
         while (i < 5) { mut i += 1; if (i == 2) { continue; } if (i == 5) { break; } mut sum += i; }
         print[i, sum];
         fn first[] { loop { return 7; } }
         print[first[]];
         for (let k = 0; k < 3; k) { print[k]; mut k += 1; }",
    );
    assert_eq!(out, "5 8 7 0 1 2 ");
}

#[test]
fn a_formula_is_evaluated_each_time_it_is_read() {
    let out = printed("let a = 1; let b := a + 1; print[b]; mut a = 10; print[b];");
    assert_eq!(out, "2 11 ");
}

#[test]
fn a_thrown_value_comes_back_as_an_error() {
    let out = printed(
        "fn bad[] { throw \"boom\"; }
         let e = bad[];
         let one = 1; let twelve = 12; let yes = true; let nothing = None;
         print[e, e.is_err[], one.is_err[], e.to_string[], twelve.to_string[] + 1];
         print[yes.to_string[] + \"!\", nothing.to_string[] + \"!\"];",
    );
    assert_eq!(out, "boom true false boom 121 true! None! ");
}

#[test]
fn scopes_and_contexts() {
    let out = printed(
        "scope geometry { let sides = 4; fn double[n] return n * 2; }
         context counter { let value = 1; fn me[] return this; }
         print[geometry.sides, geometry.double[21], counter.me[] == counter, counter.value];",
    );
    assert_eq!(out, "4 42 true 1 ");
}

#[test]
fn free_variables_resolve_through_the_callers() {
    let out = printed(
        "fn show[] return hidden;
         fn caller[] { let hidden = \"from caller\"; return show[]; }
         print[caller[]];",
    );
    assert_eq!(out, "from caller ");
}

#[test]
fn fatal_errors_are_results() {
    let unbound = run_source("print[nowhere];").expect_err("unbound");
    assert_eq!(unbound.message, "Variable `nowhere` not found");
    assert_eq!((unbound.start, unbound.end), (6, 13));
    assert_eq!(unbound.path, "main.syms");

    let uncallable = run_source("let x = 1; x[];").expect_err("not a function");
    assert_eq!(uncallable.message, "`x` is not a function");

    let arity = run_source("fn f[a] return a; f[1, 2];").expect_err("arity");
    assert_eq!(arity.message, "Expected 1 arguments, got 2");

    let assign = run_source("mut ghost = 1;").expect_err("assign to unbound");
    assert_eq!(assign.message, "Variable `ghost` not found");

    let native = run_source("std.hashmap.set[1, 2, 3];").expect_err("not a scope");
    assert_eq!(native.message, "1 is not a scope reference");

    let count = run_source("let m = std.hashmap.new[1];").expect_err("wrong count");
    assert_eq!(count.message, "Wrong number of arguments (expected 0)");

    let member = run_source("fn f[] return 1; f.x;").expect_err("no scope");
    assert_eq!(member.message, "is not a scope");
}

#[test]
fn the_budget_of_rounds_stops_an_endless_loop() {
    let source = "loop { }";
    let ast = Parser::new("main.syms", source).parse().expect("parses");
    let mut interpreter = Interpreter::new("main.syms", source, &ast).expect("starts");
    interpreter.set_limits(2048, 1000);
    let failure = interpreter.run().expect_err("the loop never ends");
    assert_eq!(failure.message, "The budget of loop rounds is used up");
    assert_eq!(interpreter.vault().depth(), 2);
}

#[test]
fn the_depth_limit_stops_endless_recursion() {
    let failure = run_source("fn f[] return f[]; f[];").expect_err("too deep");
    assert_eq!(failure.message, "Evaluation is nested too deeply");
}

#[test]
fn imports_get_a_scope_of_their_own_each_time() {
    let main = "import \"a\"; import \"b\";
        print[a.seen.store.get[\"count\"], b.seen.store.get[\"count\"], a.seen.__file__];";
    let ast = Parser::new("dir/main.syms", main).parse().expect("parses");
    let mut interpreter = Interpreter::new("dir/main.syms", main, &ast).expect("starts");
    interpreter.provide_module(
        "dir/a.syms".to_owned(),
        Ok("import shared as seen; seen.store.set[\"count\", 1];".to_owned()),
    );
    interpreter.provide_module(
        "dir/b.syms".to_owned(),
        Ok("import shared as seen;".to_owned()),
    );
    interpreter.provide_module(
        "dir/shared.syms".to_owned(),
        Ok("let store = std.hashmap.new[];".to_owned()),
    );
    interpreter.run().expect("runs");
    assert_eq!(interpreter.output_text(), "1 None dir/shared.syms ");
    assert!(interpreter.take_reports().is_empty());
}

#[test]
fn a_failed_import_is_reported_and_evaluation_goes_on() {
    let main = "import nothing; print[\"after\"];";
    let ast = Parser::new("main.syms", main).parse().expect("parses");
    let mut interpreter = Interpreter::new("main.syms", main, &ast).expect("starts");
    interpreter.provide_module("other.syms".to_owned(), Err("No such file".to_owned()));
    interpreter.run().expect("runs");
    assert_eq!(interpreter.output_text(), "after ");
    let reports = interpreter.take_reports();
    assert_eq!(reports.len(), 1);
    assert_eq!(
        reports[0].message,
        "Failed to import module: `nothing`\nthe file was not provided"
    );
    assert_eq!((reports[0].start, reports[0].end), (0, 21));
}

#[test]
fn setting_up_the_vault_does_not_fail() {
    let source = "";
    let ast = Parser::new("main.syms", source).parse().expect("parses");
    let mut interpreter = Interpreter::new("main.syms", source, &ast).expect("starts");
    assert_eq!(interpreter.vault().depth(), 0);
    assert!(interpreter.initialize().is_ok());
    assert_eq!(interpreter.vault().depth(), 2);
    // a second set-up puts two more scopes on top
    assert!(interpreter.initialize().is_ok());
    assert_eq!(interpreter.vault().depth(), 4);
}

#[test]
fn a_failure_keeps_what_was_printed_before_it() {
    let source = "print[1]; { print[2]; print[nowhere]; } print[3];";
    let ast = Parser::new("main.syms", source).parse().expect("parses");
    let mut interpreter = Interpreter::new("main.syms", source, &ast).expect("starts");
    let failure = interpreter.run().expect_err("the name is unbound");
    assert_eq!(failure.message, "Variable `nowhere` not found");
    assert_eq!(interpreter.output_text(), "1 2 ");
    // the block that failed is off the stack again
    assert_eq!(interpreter.vault().depth(), 2);
}

#[test]
fn a_loop_fails_where_its_test_or_its_body_fails() {
    let test = run_source("while (nowhere) { }").expect_err("test");
    assert_eq!(test.message, "Variable `nowhere` not found");
    let body = run_source("let i = 0; while (i < 3) { mut i += 1; if (i == 2) { elsewhere; } }")
        .expect_err("body");
    assert_eq!(body.message, "Variable `elsewhere` not found");
    let update = run_source("for (let i = 0; i < 3; gone) { }").expect_err("update");
    assert_eq!(update.message, "Variable `gone` not found");
}

#[test]
fn a_while_loop_uses_the_budget_of_rounds() {
    let source = "let i = 0; while (i < 10) { mut i += 1; } print[i];";
    let ast = Parser::new("main.syms", source).parse().expect("parses");
    let mut enough = Interpreter::new("main.syms", source, &ast).expect("starts");
    enough.set_limits(2048, 11);
    assert!(enough.run().is_ok());
    assert_eq!(enough.output_text(), "10 ");
    let mut short = Interpreter::new("main.syms", source, &ast).expect("starts");
    short.set_limits(2048, 10);
    let failure = short.run().expect_err("one round short");
    assert_eq!(failure.message, "The budget of loop rounds is used up");
}

#[test]
fn nesting_fails_at_the_limit_and_not_before() {
    let source = "print[1 + 2];";
    let ast = Parser::new("main.syms", source).parse().expect("parses");
    let mut needed = 0;
    for depth in 0..40 {
        let mut interpreter = Interpreter::new("main.syms", source, &ast).expect("starts");
        interpreter.set_limits(depth, 100);
        match interpreter.run() {
            Ok(()) => {
                needed = depth;
                break;
            }
            Err(d) => assert_eq!(d.message, "Evaluation is nested too deeply"),
        }
    }
    assert!(needed > 0);
    let mut deeper = Interpreter::new("main.syms", source, &ast).expect("starts");
    deeper.set_limits(needed + 1, 100);
    assert!(deeper.run().is_ok());
    assert_eq!(deeper.output_text(), "3 ");
}

#[test]
fn what_is_not_evaluated_fails() {
    let yielded = run_source("fn f[] { yield 1; } f[];").expect_err("yield");
    assert_eq!(yielded.message, "`yield` is not supported");
    let method = run_source("let n = 1; n.nothing[];").expect_err("no such method");
    assert_eq!(method.message, "Variable `nothing` not found");
}

#[test]
fn a_diagnostic_names_the_file_and_the_place() {
    let source = "let é = 1;\nfn f[a] return a;\nprint[f[1, 2]];";
    let failure = run_source(source).expect_err("é is no name of the language");
    assert_eq!(failure.path, "main.syms");
    assert_eq!(failure.source, source);
    assert_eq!((failure.start, failure.end), (4, 6));

    let source = "let s = \"é\";\nfn f[a] return a;\nprint[f[1, 2]];";
    let arity = run_source(source).expect_err("one argument too many");
    assert_eq!(arity.message, "Expected 1 arguments, got 2");
    assert_eq!(arity.path, "main.syms");
    assert_eq!(arity.source, source);
    assert_eq!(&source[arity.start..arity.end], "f[1, 2]]");

    let source = "let gone = None;\n{ scope s { let x = 1; } mut gone = s; }\nprint[gone.x];";
    let stale = run_source(source).expect_err("the scope went with its block");
    assert_eq!(stale.message, "The scope is no longer alive");
    assert_eq!(stale.path, "main.syms");
    assert_eq!(&source[stale.start..stale.end], "gone.x]");

    let source = "print[\"é\", nowhere];";
    let unbound = run_source(source).expect_err("unbound");
    assert_eq!(unbound.message, "Variable `nowhere` not found");
    assert_eq!(&source[unbound.start..unbound.end], "nowhere");
}
