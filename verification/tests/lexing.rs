use ligma::expr::Fault;
use ligma::fun::Fun;
use ligma::lexer::{lex_program, Lexer};
use ligma::token::Token;

fn tokens_of(src: &str) -> Vec<Token> {
    let mut lx = Lexer::new(src);
    lex_program(&mut lx)
}

fn run_with_files(src: &str, files: Vec<(String, String)>) -> (String, Result<(), Fault>) {
    let mut lx = Lexer::new_with_files(src, files);
    let tokens = lex_program(&mut lx);
    let mut fun = Fun::new(tokens);
    let r = fun.eval();
    (fun.get_output(), r)
}

#[test]
fn lexes_assignment_and_output() {
    let toks = tokens_of("x=5;!x;");
    let shown = format!("{:?}", toks);
    assert_eq!(
        shown,
        "[Assign(None, \"x\"), Integer(5), Semicolon, Output(None, \"x\")]"
    );
}

#[test]
fn lexes_number_kinds() {
    assert_eq!(format!("{:?}", tokens_of("42")), "[Integer(42)]");
    let toks = tokens_of("2.5");
    match &toks[0] {
        Token::Float(bits) => assert_eq!(*bits, 2.5f64.to_bits()),
        other => panic!("expected a float literal, got {:?}", other),
    }
}

#[test]
fn dotted_number_keeps_single_dot() {
    // a second dot is consumed but not recorded
    let toks = tokens_of("1..2");
    match &toks[0] {
        Token::Float(bits) => assert_eq!(*bits, 1.2f64.to_bits()),
        other => panic!("expected a float literal, got {:?}", other),
    }
}

#[test]
fn oversized_integer_literal_is_illegal() {
    let toks = tokens_of("99999999999999999999");
    match &toks[0] {
        Token::Illegal(_, _) => {},
        other => panic!("expected an illegal token, got {:?}", other),
    }
}

#[test]
fn lexes_string_escapes() {
    let toks = tokens_of("\"a\\n\\t\\\"b\\q\"");
    match &toks[0] {
        Token::Str(s) => assert_eq!(s, "a\n\t\"bq"),
        other => panic!("expected a string literal, got {:?}", other),
    }
}

#[test]
fn lexes_operators_and_structure() {
    let shown = format!("{:?}", tokens_of("+ - * / % == =! < > <= >= | & ^ ( ) { } ;"));
    assert_eq!(
        shown,
        "[Add, Sub, Multiply, Divide, Mod, Equals, Neq, Lt, Gt, LtEq, GtEq, Or, And, Xor, \
         LParen, RParen, LBrack, RBrack, Semicolon]"
    );
}

#[test]
fn lexes_control_forms() {
    let shown = format!("{:?}", tokens_of("$n{ $; ?c{ ??in; !v; **k;"));
    assert_eq!(
        shown,
        "[Loop(None, \"n\"), Break, If(None, \"c\"), Input(None, \"in\"), \
         Output(None, \"v\"), Kill(None, \"k\")]"
    );
}

#[test]
fn lexes_index_prefix() {
    let shown = format!("{:?}", tokens_of("[i]x=1;"));
    assert_eq!(shown, "[Assign(Some(\"i\"), \"x\"), Integer(1), Semicolon]");
}

#[test]
fn indexed_function_header_is_rejected() {
    let toks = tokens_of("[i]f{");
    match &toks[0] {
        Token::Illegal(_, msg) => assert!(msg.contains("a function without a array index")),
        other => panic!("expected an illegal token, got {:?}", other),
    }
}

#[test]
fn lexes_booleans_and_syscall() {
    let shown = format!("{:?}", tokens_of("#T# #F# #sys#"));
    assert_eq!(shown, "[Bool(true), Bool(false), SysCall(\"sys\")]");
}

#[test]
fn lexes_macro_forms() {
    let shown = format!("{:?}", tokens_of("#<m> #(m)"));
    assert_eq!(shown, "[Def(\"m\"), Insert(\"m\")]");
}

#[test]
fn double_equals_after_identifier_is_a_reference() {
    let shown = format!("{:?}", tokens_of("x==1;"));
    assert_eq!(
        shown,
        "[Identifier(None, \"x\"), Equals, Integer(1), Semicolon]"
    );
}

#[test]
fn error_reports_position() {
    let lx = Lexer::new("abc");
    assert_eq!(lx.error("a thing"), "Error: expected a thing at position 0");
}

#[test]
fn spliced_file_equals_manual_concatenation() {
    // Tokenizing a file that splices another yields the same token
    // sequence as writing the other file's tokens there by hand.
    let files = vec![(String::from("lib.lg"), String::from("!\"b\";"))];
    let mut lx = Lexer::new_with_files("!\"a\";#[lib.lg]!\"c\";", files);
    let spliced = lex_program(&mut lx);
    let manual = tokens_of("!\"a\";!\"b\";!\"c\";");
    assert_eq!(format!("{:?}", spliced), format!("{:?}", manual));
}

#[test]
fn spliced_file_runs_in_place() {
    let files = vec![(String::from("lib.lg"), String::from("!\"b\";"))];
    let (out, r) = run_with_files("!\"a\";#[lib.lg]!\"c\";", files);
    assert_eq!(out, "abc");
    assert!(r.is_ok());
}

#[test]
fn missing_spliced_file_contributes_nothing() {
    let (out, r) = run_with_files("!\"a\";#[nope]!\"c\";", Vec::new());
    assert_eq!(out, "ac");
    assert!(r.is_ok());
}

#[test]
fn missing_paths_are_reported() {
    let mut lx = Lexer::new("#[one]#[two]");
    let _ = lex_program(&mut lx);
    assert_eq!(lx.take_missing(), vec![String::from("one"), String::from("two")]);
}

#[test]
fn splice_cycle_ends_quietly() {
    let files = vec![(String::from("a"), String::from("#[a]!\"x\";"))];
    let (out, r) = run_with_files("#[a]", files);
    assert!(r.is_ok());
    // each nesting level prints once until the splice budget runs out
    assert!(out.chars().all(|c| c == 'x'));
}

#[test]
fn eof_comes_at_end_only() {
    let mut lx = Lexer::new("  \n  ");
    let t = lx.lex_next_token();
    match t {
        Token::EOF => {},
        other => panic!("expected the end marker, got {:?}", other),
    }
}
