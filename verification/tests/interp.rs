use ligma::expr::Fault;
use ligma::fun::Fun;
use ligma::lexer::{lex_program, Lexer};

fn run(src: &str) -> (String, Result<(), Fault>) {
    let mut lx = Lexer::new(src);
    let tokens = lex_program(&mut lx);
    let mut fun = Fun::new(tokens);
    let r = fun.eval();
    (fun.get_output(), r)
}

#[test]
fn outputs_simple_assignment() {
    let (out, r) = run("x=5;!x;");
    assert_eq!(out, "5");
    assert!(r.is_ok());
}

#[test]
fn outputs_incremented_assignment() {
    let (out, r) = run("x=3;x=x+2;!x;");
    assert_eq!(out, "5");
    assert!(r.is_ok());
}

#[test]
fn countdown_loop_with_break() {
    // Three iterations print the counter; the conditional breaks at zero
    // and execution resumes right after the loop's closing brace.
    let (out, r) = run("t=#T#;n=3;$t{!n;n=n-1;z=n<1;?z{$;}}!\"end\";");
    assert_eq!(out, "321end");
    assert!(r.is_ok());
}

#[test]
fn undefined_call_is_silent() {
    let (out, r) = run("x=1;foo(x);!x;");
    assert_eq!(out, "1");
    assert!(r.is_ok());
}

#[test]
fn false_loop_runs_zero_times() {
    let (out, r) = run("f=0;$f{!f;}!\"A\";");
    assert_eq!(out, "A");
    assert!(r.is_ok());
}

#[test]
fn break_exits_only_innermost_loop() {
    let (out, r) = run("t=#T#;i=2;$i{$t{$;}!i;i=i-1;}");
    assert_eq!(out, "21");
    assert!(r.is_ok());
}

#[test]
fn deep_recursion_truncates_silently() {
    // The self-call nests until the shared depth limit and is then
    // silently skipped: the run ends normally.
    let (out, r) = run("f{c(x);}c{f(x);}x=1;f(x);!\"ok\";");
    assert_eq!(out, "ok");
    assert!(r.is_ok());
}

#[test]
fn integer_division_by_zero_is_fatal() {
    let (_, r) = run("a=1;b=a/0;");
    assert_eq!(r, Err(Fault::DivByZero));
}

#[test]
fn integer_modulo_by_zero_is_fatal() {
    let (_, r) = run("a=1;b=a%0;");
    assert_eq!(r, Err(Fault::DivByZero));
}

#[test]
fn minimum_divided_by_minus_one_is_fatal() {
    let (_, r) = run("x=0-9223372036854775807-1;y=0-1;z=x/y;");
    assert_eq!(r, Err(Fault::Overflow));
}

#[test]
fn float_division_by_zero_is_not_fatal() {
    let (out, r) = run("a=1.0;b=a/0;!b;");
    assert!(r.is_ok());
    assert_eq!(out, "inf");
}

#[test]
fn conditional_true_runs_block() {
    let (out, r) = run("c=1;?c{!\"Y\";}!\"Z\";");
    assert_eq!(out, "YZ");
    assert!(r.is_ok());
}

#[test]
fn conditional_false_skips_block() {
    let (out, r) = run("c=0;?c{!\"Y\";}!\"Z\";");
    assert_eq!(out, "Z");
    assert!(r.is_ok());
}

#[test]
fn macro_expands_each_insertion() {
    let (out, r) = run("#<m>{!\"A\";}#(m)#(m)");
    assert_eq!(out, "AA");
    assert!(r.is_ok());
}

#[test]
fn macro_body_keeps_token_order() {
    let (out, r) = run("#<m>{x=1;y=2;!x;!y;}#(m)");
    assert_eq!(out, "12");
    assert!(r.is_ok());
}

#[test]
fn function_runs_on_call() {
    let (out, r) = run("f{!\"F\";}f(x);");
    assert_eq!(out, "F");
    assert!(r.is_ok());
}

#[test]
fn call_passes_argument_bucket() {
    let (out, r) = run("f{!_@;}x=5;f(x);");
    assert_eq!(out, "5");
    assert!(r.is_ok());
}

#[test]
fn argument_register_crosses_frames() {
    let (out, r) = run("f{@=7;}f(x);y=@;!y;");
    assert_eq!(out, "7");
    assert!(r.is_ok());
}

#[test]
fn kill_deletes_whole_bucket() {
    let (out, r) = run("x=5;**x;!x;");
    assert_eq!(out, "");
    assert!(r.is_ok());
}

#[test]
fn kill_with_index_still_deletes_whole_bucket() {
    // The index on a kill is accepted syntactically but has no effect:
    // the whole named bucket goes.
    let (out, r) = run("[k]x=5;x=1;**x;![k]x;!x;");
    assert_eq!(out, "");
    assert!(r.is_ok());
}

#[test]
fn indexed_variables_are_separate_slots() {
    // an index is itself resolved as a variable: `[i]` means "under the
    // key that variable i prints as"
    let (out, r) = run("i=\"k1\";j=\"k2\";[i]x=1;[j]x=2;x=3;![i]x;![j]x;!x;");
    assert_eq!(out, "123");
    assert!(r.is_ok());
}

#[test]
fn input_lines_answer_requests() {
    let mut lx = Lexer::new("??name;!name;");
    let tokens = lex_program(&mut lx);
    let mut fun = Fun::new_with_input(tokens, vec![String::from("Bob")]);
    let r = fun.eval();
    assert!(r.is_ok());
    assert_eq!(fun.get_output(), "Bob");
}

#[test]
fn exhausted_input_reads_empty_text() {
    let (out, r) = run("??name;!name;!\"x\";");
    assert_eq!(out, "x");
    assert!(r.is_ok());
}

#[test]
fn unknown_character_is_inert() {
    let (out, r) = run("~!\"ok\";");
    assert_eq!(out, "ok");
    assert!(r.is_ok());
}

#[test]
fn comment_is_ignored() {
    let (out, r) = run("/* nothing to see */!\"ok\";");
    assert_eq!(out, "ok");
    assert!(r.is_ok());
}

#[test]
fn chained_literal_output() {
    let (out, r) = run("!\"a\";\"b\";\"c\";");
    assert_eq!(out, "abc");
    assert!(r.is_ok());
}

#[test]
fn banner_prefixes_embedded_output() {
    let out = ligma::ligma(String::from("x=5;!x;"));
    assert_eq!(
        out,
        "L I G M A  Interprets Generally Meaningless Abstractions\nv0.1.0\n\n5"
    );
}

#[test]
fn redefining_a_function_overwrites_it() {
    let (out, r) = run("f{!\"1\";}f(x);f{!\"2\";}f(x);");
    assert_eq!(out, "12");
    assert!(r.is_ok());
}

#[test]
fn nested_conditionals_balance() {
    let (out, r) = run("a=1;b=0;?a{!\"A\";?b{!\"B\";}!\"C\";}!\"D\";");
    assert_eq!(out, "ACD");
    assert!(r.is_ok());
}

#[test]
fn parenthesized_expression_groups() {
    // (2+3)*4: the parenthesized part reduces first, then feeds the rest
    let (out, r) = run("x=(2+3)*4;!x;");
    assert_eq!(out, "20");
    assert!(r.is_ok());
}

#[test]
fn argument_register_with_index() {
    // the indexed register write resolves k to its printed text; the run
    // completes quietly
    let (out, r) = run("k=\"s\";[k]@=9;y=0;[k]y=@;!\"done\";");
    assert!(r.is_ok());
    assert_eq!(out, "done");
}

#[test]
fn syscall_token_is_inert() {
    let (out, r) = run("#sys#!\"ok\";");
    assert_eq!(out, "ok");
    assert!(r.is_ok());
}

#[test]
fn float_comparison_in_program() {
    let (out, r) = run("x=1.5;y=x<2.5;!y;");
    assert_eq!(out, "true");
    assert!(r.is_ok());
    let (out2, _) = run("x=2.5;y=x<=2.5;!y;");
    assert_eq!(out2, "true");
}

#[test]
fn float_modulo_follows_ieee() {
    let (out, r) = run("x=7.5;y=x%2;!y;");
    assert_eq!(out, "1.5");
    assert!(r.is_ok());
}

#[test]
fn output_of_unset_variable_is_empty() {
    let (out, r) = run("!nothing;!\"z\";");
    assert_eq!(out, "z");
    assert!(r.is_ok());
}

#[test]
fn unset_loop_condition_counts_as_false() {
    // a lookup miss resolves to the neutral value: the loop body is
    // skipped and execution continues
    let (out, r) = run("$u{!\"A\";}!\"B\";");
    assert_eq!(out, "B");
    assert!(r.is_ok());
}

#[test]
fn unset_conditional_counts_as_false() {
    let (out, r) = run("?u{!\"A\";}!\"B\";");
    assert_eq!(out, "B");
    assert!(r.is_ok());
}
