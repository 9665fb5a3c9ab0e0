use minilang::ir::{ArithOp, Program};
use minilang::lexer::{lex, lex_equality};
use minilang::machine::{eval_arith, Event, Fault, Machine};
use minilang::parser::compile;
use minilang::render::render;
use minilang::roundtrip::detokenize;
use minilang::token::Token;

/// Runs a program to its end, feeding `input` to its reads.
fn run_program(p: &Program, input: &[i32]) -> Result<Vec<i32>, Fault> {
    let mut m = Machine::start(p)?;
    let mut out = Vec::new();
    let mut next = 0;
    for _ in 0..1_000_000 {
        match m.step(p) {
            Event::Running => {}
            Event::Output(v) => out.push(v),
            Event::NeedInput => {
                let ev = m.give_input(p, input[next]);
                next += 1;
                if let Event::Failed(f) = ev {
                    return Err(f);
                }
            }
            Event::Halted => return Ok(out),
            Event::Failed(f) => return Err(f),
        }
    }
    panic!("the program did not stop");
}

fn run(src: &str) -> Vec<i32> {
    let p = compile(src).unwrap();
    run_program(&p, &[]).unwrap()
}

fn run_err(src: &str) -> Fault {
    let p = compile(src).unwrap();
    run_program(&p, &[]).unwrap_err()
}

#[test]
fn test_statements() {
    let tokens = lex("a = 1 + 2;").unwrap();
    assert_eq!(tokens.len(), 6);
    let tokens = lex("b = 1 / 2;").unwrap();
    assert_eq!(tokens.len(), 6);
    let tokens = lex("b = 1 / 2").unwrap();
    assert_eq!(tokens.len(), 5);
}

#[test]
fn lexer_numbers_and_operators() {
    let toks = lex("1 + 2 + 3").unwrap();
    assert_eq!(toks.len(), 5);
    assert!(matches!(toks[0], Token::Num(1)));
    assert!(matches!(toks[1], Token::Plus));
    assert!(matches!(toks[2], Token::Num(2)));
    assert!(matches!(toks[4], Token::Num(3)));
    let toks = lex("3 + 215 +-").unwrap();
    assert_eq!(toks.len(), 5);
    assert!(matches!(toks[2], Token::Num(215)));
    assert!(matches!(toks[4], Token::Subtract));
}

#[test]
fn lexer_words_signs_and_comments() {
    let toks = lex("func x_1 while # note\n<= == != = < > %").unwrap();
    assert_eq!(toks.len(), 10);
    assert!(matches!(toks[0], Token::Func));
    match &toks[1] {
        Token::Ident(s) => assert_eq!(s, "x_1"),
        _ => panic!("expected an identifier"),
    }
    assert!(matches!(toks[2], Token::While));
    assert!(matches!(toks[3], Token::LessEqual));
    assert!(matches!(toks[4], Token::Equality));
    assert!(matches!(toks[5], Token::NotEqual));
    assert!(matches!(toks[6], Token::Assign));
    assert!(matches!(toks[7], Token::Less));
    assert!(matches!(toks[8], Token::Greater));
    assert!(matches!(toks[9], Token::Modulus));
}

#[test]
fn lexer_comment_at_end_of_text() {
    let toks = lex("print # the rest").unwrap();
    assert_eq!(toks.len(), 1);
    assert!(matches!(toks[0], Token::Print));
}

#[test]
fn lexer_errors() {
    assert_eq!(lex("^^^ a").unwrap_err(), "Unidentified symbol ^^^");
    assert_eq!(lex("x = 12abc;").unwrap_err(), "Unidentified symbol 12abc;");
    assert_eq!(lex("a ! b").unwrap_err(), "Unidentified symbol !");
    assert_eq!(lex("99999999999").unwrap_err(), "Unidentified symbol 99999999999");
    assert!(matches!(lex("2147483647").unwrap()[0], Token::Num(2147483647)));
}

#[test]
fn lexer_empty_input() {
    assert_eq!(lex("").unwrap().len(), 0);
    assert_eq!(lex("  \n\t ").unwrap().len(), 0);
}

#[test]
fn scenario_arithmetic_precedence() {
    assert_eq!(run("func main() { int x; x = 1 + 2 * 3; print(x); }"), vec![7]);
}

#[test]
fn scenario_while_loop() {
    assert_eq!(
        run("func main() { int i; i = 0; while i < 3 { print(i); i = i + 1; } }"),
        vec![0, 1, 2]
    );
}

#[test]
fn scenario_array_sum() {
    let src = "func main() { int[3] a; a[0] = 10; a[1] = 20; a[2] = 30; int s; s = 0; int i; i = 0; while i < 3 { s = s + a[i]; i = i + 1; } print(s); }";
    assert_eq!(run(src), vec![60]);
}

#[test]
fn scenario_function_call() {
    let src = "func add(int a, int b) { return a + b; } func main() { int r; r = add(7, 35); print(r); }";
    assert_eq!(run(src), vec![42]);
}

#[test]
fn scenario_if_else() {
    assert_eq!(
        run("func main() { int x; x = 5; if x == 5 { print(1); } else { print(2); } }"),
        vec![1]
    );
}

#[test]
fn scenario_undeclared_variable() {
    let e = compile("func main() { int x; y = 3; }").unwrap_err();
    assert_eq!(e, "Error. undeclared var: y");
}

#[test]
fn branches_take_one_side() {
    assert_eq!(run("func main() { if 0 == 1 { print(1); } else { print(2); } }"), vec![2]);
    assert_eq!(run("func main() { if 1 == 1 { print(1); } else { print(2); } }"), vec![1]);
    assert_eq!(run("func main() { while 0 == 1 { print(1); } print(3); }"), vec![3]);
}

#[test]
fn nested_loops_and_break_continue() {
    let src = "func main() { int i; int j; i = 0; while i < 3 { j = 0; while j < 10 { j = j + 1; if j == 2 { break; } } i = i + 1; if i == 2 { continue; } print(i * 10 + j); } }";
    assert_eq!(run(src), vec![12, 32]);
}

#[test]
fn parameters_are_copies() {
    let src = "func f(int a) { a = a + 100; return a; } func main() { int a; int r; a = 1; r = f(a); print(a); print(r); }";
    assert_eq!(run(src), vec![1, 101]);
}

#[test]
fn recursion() {
    let src = "func fact(int n) { if n <= 1 { return 1; } int r; r = fact(n - 1); return n * r; } func main() { print(fact(5)); }";
    assert_eq!(run(src), vec![120]);
}

#[test]
fn falling_off_a_function_returns_zero() {
    assert_eq!(run("func f() { int x; } func main() { print(f()); }"), vec![0]);
}

#[test]
fn array_bounds_are_checked() {
    assert_eq!(run_err("func main() { int[2] a; a[2] = 1; }"), Fault::OutOfBounds);
    assert_eq!(run_err("func main() { int[2] a; int x; x = a[0 - 1]; }"), Fault::OutOfBounds);
    assert_eq!(run("func main() { int[2] a; a[1] = 5; print(a[1] + a[0]); }"), vec![5]);
}

#[test]
fn division_by_zero_is_a_runtime_error() {
    assert_eq!(run_err("func main() { print(1 / 0); }"), Fault::DivisionByZero);
    assert_eq!(run_err("func main() { print(1 % 0); }"), Fault::DivisionByZero);
}

#[test]
fn arithmetic_is_32_bit() {
    assert_eq!(eval_arith(ArithOp::Add, i32::MAX, 1), Ok(i32::MIN));
    assert_eq!(eval_arith(ArithOp::Sub, i32::MIN, 1), Ok(i32::MAX));
    assert_eq!(eval_arith(ArithOp::Mult, 65536, 65536), Ok(0));
    assert_eq!(eval_arith(ArithOp::Div, -7, 2), Ok(-3));
    assert_eq!(eval_arith(ArithOp::Mod, -7, 2), Ok(-1));
    assert_eq!(eval_arith(ArithOp::Mod, 7, -2), Ok(1));
    assert_eq!(eval_arith(ArithOp::Div, i32::MIN, -1), Ok(i32::MIN));
    assert_eq!(eval_arith(ArithOp::Mod, i32::MIN, -1), Ok(0));
    assert_eq!(eval_arith(ArithOp::Div, 1, 0), Err(Fault::DivisionByZero));
    assert_eq!(run("func main() { print(7 - 10); print(0 - 7 / 2); print(0 - 7 % 3); }"), vec![-3, -3, -1]);
}

#[test]
fn reads_store_input() {
    let p = compile("func main() { int x; int[2] a; read(x); read(a[1]); print(x + a[1]); }").unwrap();
    assert_eq!(run_program(&p, &[4, 38]).unwrap(), vec![42]);
}

#[test]
fn parse_errors() {
    assert_eq!(compile("func f() { } func f() { } func main() { }").unwrap_err(), "Error. found a duplicate function f");
    assert_eq!(compile("func main() { int x; int x; }").unwrap_err(), "Error. found a duplicate variable x");
    assert_eq!(compile("func f() { }").unwrap_err(), "Error. no main function defined");
    assert_eq!(compile("").unwrap_err(), "Error. no main function defined");
    assert_eq!(
        compile("func main() { int[0] a; }").unwrap_err(),
        "Error. Declaring an array of a size that is <= 0"
    );
    assert_eq!(
        compile("func main() { int[2] a; int x; x = a; }").unwrap_err(),
        "Error. type mismatch: using array as int for var: a"
    );
    assert_eq!(
        compile("func main() { int x; x[0] = 1; }").unwrap_err(),
        "Error. type mismatch: using int as array in var: x"
    );
    assert_eq!(compile("func main() { break; }").unwrap_err(), "break or continue outside of a loop");
    assert_eq!(compile("func main() { int x; x = 1 }").unwrap_err(), "expected ';' closing statement");
    assert_eq!(compile("func main() { print(z); }").unwrap_err(), "Error. undeclared var or function: z");
}

#[test]
fn main_must_not_take_parameters() {
    assert_eq!(compile("func main(int a) { }").unwrap_err(), "Error. main must not have parameters");
    let p = compile("func main() { }").unwrap();
    assert!(Machine::start(&p).is_ok());
}

#[test]
fn a_variable_cannot_be_called() {
    assert_eq!(
        compile("func main() { int x; int y; y = x(1); }").unwrap_err(),
        "Error. type mismatch: calling a variable: x"
    );
}

#[test]
fn errors_name_the_undeclared_variable() {
    assert_eq!(compile("func main() { int x; while x < 1 { y = 3; } }").unwrap_err(), "Error. undeclared var: y");
    assert_eq!(compile("func main() { int x; read(z); }").unwrap_err(), "Error. undeclared var: z");
}

#[test]
fn wrong_number_of_arguments() {
    assert_eq!(run_err("func f(int a) { return a; } func main() { print(f(1, 2)); }"), Fault::Arity);
}

#[test]
fn rendered_code() {
    let p = compile("func main() { int x; x = 1 + 2 * 3; print(x); }").unwrap();
    assert_eq!(
        render(&p),
        "%func main()\n%int x\n%int _temp1\n%int _temp0\n%mult _temp0, 2, 3\n%add _temp1, 1, _temp0\n%mov x, _temp1\n%out x\n%endfunc\n"
    );
}

#[test]
fn rendered_loop_and_call() {
    let p = compile("func g(int a, int b) { return a; } func main() { int[4] v; while 1 < 2 { v[0] = g(1, 0 - 1); } }").unwrap();
    let text = render(&p);
    assert!(text.starts_with("%func g(%int a, %int b)\n%ret a\n%endfunc\n%func main()\n%int[] v, 4\n:beginningloop0\n"));
    assert!(text.contains("%branch_ifn _temp0, :endloop0\n"));
    assert!(text.contains("%call _temp2, g(1, _temp1)\n"));
    assert!(text.contains("%mov [v + 0], _temp2\n%jmp :beginningloop0\n:endloop0\n%endfunc\n"));
}

#[test]
fn scanning_the_written_out_tokens_gives_them_back() {
    let src = "func main(){int[10] a;a[3]=12+x_y*(4%2);# note\nif b<=7{print(a[3]);}else{read(z);} while 1!=2 {break;} return 0; }";
    let first = lex(src).unwrap();
    let text = detokenize(&first);
    assert!(text.starts_with("func main ( ) { int [ 10 ] a ; a [ 3 ] = 12 + x_y * ( 4 % 2 ) ; if b <= 7 {"));
    let second = lex(&text).unwrap();
    assert_eq!(detokenize(&second), text);
    assert_eq!(first.len(), second.len());
}

#[test]
fn scanning_twice_gives_the_same_tokens() {
    let src = "func main() { int x; x = 1 + 22 * 333; }";
    assert_eq!(detokenize(&lex(src).unwrap()), detokenize(&lex(src).unwrap()));
    assert_eq!(lex("a $ b").unwrap_err(), lex("a $ b").unwrap_err());
}

#[test]
fn runs_are_deterministic() {
    let src = "func f(int n) { if n < 2 { return n; } return f(n - 1) + f(n - 2); } func main() { int i; i = 0; while i < 8 { print(f(i)); i = i + 1; } }";
    let first = run(src);
    assert_eq!(first, vec![0, 1, 1, 2, 3, 5, 8, 13]);
    assert_eq!(run(src), first);
}

#[test]
fn labels_are_defined_once() {
    let src = "func g() { while 1 < 2 { if 1 == 1 { break; } } return 0; } func main() { int i; i = 0; while i < 2 { while i < 1 { i = i + 1; } if i == 1 { print(i); } else { print(0); } i = i + 1; } print(g()); }";
    let p = compile(src).unwrap();
    let text = render(&p);
    let labels: Vec<&str> = text.lines().filter(|l| l.starts_with(':')).collect();
    assert_eq!(labels.len(), 12);
    for (k, l) in labels.iter().enumerate() {
        assert!(!labels[k + 1..].contains(l), "label {l} defined twice");
    }
    assert_eq!(run(src), vec![1, 0]);
}

#[test]
fn uses_match_declarations() {
    assert_eq!(
        compile("func f() { return 1; } func main() { int x; x = f; }").unwrap_err(),
        "Error. function used without a call: f"
    );
    assert_eq!(
        compile("func f() { return 1; } func main() { int f; }").unwrap_err(),
        "Error. found a variable named like a function: f"
    );
    assert_eq!(
        compile("func main() { int x; x = g(1); } func g(int a) { return a; }").unwrap_err(),
        "Error. undeclared var or function: g"
    );
}

#[test]
fn print_takes_a_parenthesized_expression() {
    assert_eq!(run("func main() { print((1 + 2) * 3); }"), vec![9]);
    assert!(compile("func main() { int x; print x; }").is_err());
    assert!(compile("func main() { int a; print (a) + 1; }").is_err());
}

#[test]
fn input_that_ends_inside_a_function_is_an_error() {
    assert!(compile("func main(").is_err());
    assert!(compile("func main() {").is_err());
    assert!(compile("func main() { int x; x = 1;").is_err());
}

#[test]
fn variables_of_another_function_are_undeclared() {
    assert_eq!(
        compile("func f() { int a; a = 1; } func main() { print(a); }").unwrap_err(),
        "Error. undeclared var or function: a"
    );
}

#[test]
fn signs_at_the_end_of_the_text() {
    let code: Vec<char> = "a <=".chars().collect();
    assert!(matches!(lex_equality(&code, 2), Some((Token::LessEqual, 4))));
    assert!(lex_equality(&code, 4).is_none());
    assert!(lex_equality(&code, 0).is_none());
    let bang: Vec<char> = "!".chars().collect();
    assert!(lex_equality(&bang, 0).is_none());
}

#[test]
fn statements_compile_to_their_code() {
    let p = compile("func main() { int a; a = 1 + 2; read(a); }").unwrap();
    assert_eq!(
        render(&p),
        "%func main()\n%int a\n%int _temp0\n%add _temp0, 1, 2\n%mov a, _temp0\n%input a\n%endfunc\n"
    );
    assert_eq!(run("func main() { int a; a = 1 + 2; print(a); }"), vec![3]);
    assert_eq!(run("func main() { print(10 - 3 - 2); }"), vec![5]);
}
