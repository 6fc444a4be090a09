use blaze::compiler::compile;
use blaze::expr::{self, Expr};
use blaze::kind::Kind;
use blaze::parser::Parser;
use blaze::scanner::Scanner;
use blaze::stmt::{self, Stmt};
use blaze::token::Token;
use blaze::value::Value;
use blaze::variant::{self, Variant};

fn parse_errors(source: &str) -> Vec<(usize, String, String)> {
    let mut scanner = Scanner::new(source);
    let (tokens, errors) = scanner.scan();
    assert!(errors.is_empty());
    let mut parser = Parser::new(tokens);
    let (_, errors) = parser.parse();
    errors.into_iter().map(|e| (e.line, e.location, e.message)).collect()
}

fn first_message(source: &str) -> String {
    parse_errors(source).remove(0).2
}

#[test]
fn statement_error_messages() {
    assert_eq!(first_message("fn f() { return 1 2; }"), "Expect ';' after return value.");
    assert_eq!(first_message("fn f() { break 1; }"), "Expect ';' after 'break'.");
    assert_eq!(first_message("fn f() { continue 1; }"), "Expect ';' after 'continue'.");
    assert_eq!(first_message("fn f() { let 1: N; }"), "Expect variable name.");
    assert_eq!(first_message("fn f() { let x N; }"), "Expect variable type.");
    assert_eq!(first_message("fn f() { let x: N = 1 2; }"), "Expect ';' after variable declaration.");
    assert_eq!(first_message("fn f() { loop 1; }"), "Expect '{' after 'loop'.");
    assert_eq!(first_message("fn f() { if x 1; }"), "Expect block after 'if'.");
    assert_eq!(first_message("fn f() { if x { } else 1; }"), "Expect block after 'else'.");
    assert_eq!(first_message("fn f() { x = 1 2; }"), "Expect ';' after assignment.");
    assert_eq!(first_message("fn f() { x 2; }"), "Expect ';' after expression.");
}

#[test]
fn expression_error_messages() {
    assert_eq!(first_message("fn f() { (1; }"), "Expect ')' after expression.");
    assert_eq!(first_message("fn f() { g(1; }"), "Expect ')' after arguments.");
    assert_eq!(first_message("fn f() { +; }"), "Expect expression.");
    assert_eq!(first_message("fn f() { g(1,,); }"), "Expect expression.");
}

#[test]
fn declaration_error_messages() {
    assert_eq!(first_message("fn f {}"), "Expect '(' after function name.");
    assert_eq!(first_message("fn f(1) {}"), "Expect parameter name.");
    assert_eq!(first_message("fn f(a N) {}"), "Expect ':' after parameter name.");
    assert_eq!(first_message("fn f(a: N {}"), "Expect ')' after parameters.");
    assert_eq!(first_message("fn f() 1"), "Expect '{' before function body.");
    assert_eq!(first_message("fn f(a: 1) {}"), "Expect literal or function type.");
    assert_eq!(first_message("type 1 = N;"), "Expect type name.");
    assert_eq!(first_message("type T N;"), "Expect '=' after type name.");
    assert_eq!(first_message("type T = N N;"), "Expect ';' after type.");
    assert_eq!(first_message("type T = fn N;"), "Expect '(' after function type.");
    assert_eq!(first_message("type T = fn(N;"), "Expect ')' after function type.");
    assert_eq!(first_message("let x: N;"), "Expect function or type declaration.");
}

#[test]
fn recovery_resumes_at_next_declaration() {
    let errors = parse_errors("fn f() { 1 = 2; }\ntype T = ;\nfn g() { x(; }\nfn ok() {}");
    assert_eq!(errors.len(), 3);
    assert_eq!(errors[0].0, 1);
    assert_eq!(errors[0].2, "Invalid assignment target.");
    assert_eq!(errors[1].0, 2);
    assert_eq!(errors[1].1, " at ';'");
    assert_eq!(errors[2].0, 3);
    assert_eq!(errors[2].2, "Expect expression.");
}

#[test]
fn trailing_comma_in_parameters_is_rejected() {
    assert_eq!(first_message("fn f(a: N,) {}"), "Expect parameter name.");
}

#[test]
fn parser_on_eof_only() {
    let eof = Token { kind: Kind::EOF, lexeme: String::new(), line: 1 };
    let mut parser = Parser::new(vec![eof]);
    let (statements, errors) = parser.parse();
    assert!(statements.is_empty());
    assert!(errors.is_empty());
}

#[test]
fn left_associative_arithmetic() {
    let mut scanner = Scanner::new("fn f() { 1 - 2 - 3; }");
    let (tokens, _) = scanner.scan();
    let mut parser = Parser::new(tokens);
    let (statements, _) = parser.parse();
    let body = match &statements[0] {
        Stmt::Function(f) => match &f.body {
            Stmt::Block(b) => &b.statements,
            _ => panic!("body"),
        },
        _ => panic!("function"),
    };
    match &body[0] {
        Stmt::Expression(e) => match &e.expression {
            Expr::Binary(outer) => {
                assert!(matches!(outer.left, Expr::Binary(_)));
                assert!(matches!(outer.right, Expr::Literal(_)));
            }
            _ => panic!("binary"),
        },
        _ => panic!("expression"),
    }
}

#[test]
fn compile_stops_at_scan_errors() {
    let result = compile("fn f() { @ }");
    assert_eq!(result, Err(vec!["[line 1] Error: Unexpected character.".to_string()]));
}

#[test]
fn compile_stops_at_parse_errors() {
    let result = compile("fn f() {\n1 = 2\n}");
    assert_eq!(
        result,
        Err(vec!["[line 2] Error at '=': Invalid assignment target.".to_string()])
    );
}

#[test]
fn compile_produces_program() {
    let result = compile("fn main() {\nprint(1)\n}").unwrap();
    assert!(result.ends_with("fn main() -> () { (print)(1); }"));
}

struct Counter {
    names: usize,
    nodes: usize,
}

impl expr::Visitor for Counter {
    type Result = usize;

    fn visit_logical_expr(&mut self, e: &expr::Logical) -> usize {
        self.nodes += 1;
        e.left.accept(self) + e.right.accept(self)
    }

    fn visit_binary_expr(&mut self, e: &expr::Binary) -> usize {
        self.nodes += 1;
        e.left.accept(self) + e.right.accept(self)
    }

    fn visit_unary_expr(&mut self, e: &expr::Unary) -> usize {
        self.nodes += 1;
        e.right.accept(self)
    }

    fn visit_call_expr(&mut self, e: &expr::Call) -> usize {
        self.nodes += 1;
        let mut n = e.callee.accept(self);
        for a in e.arguments.iter() {
            n += a.accept(self);
        }
        n
    }

    fn visit_grouping_expr(&mut self, e: &expr::Grouping) -> usize {
        self.nodes += 1;
        e.expression.accept(self)
    }

    fn visit_variable_expr(&mut self, _e: &expr::Variable) -> usize {
        self.nodes += 1;
        self.names += 1;
        1
    }

    fn visit_literal_expr(&mut self, _e: &expr::Literal) -> usize {
        self.nodes += 1;
        0
    }
}

impl stmt::Visitor for Counter {
    type Result = usize;

    fn visit_if_stmt(&mut self, _s: &stmt::If) -> usize {
        1
    }
    fn visit_function_stmt(&mut self, s: &stmt::Function) -> usize {
        s.body.accept(self)
    }
    fn visit_return_stmt(&mut self, s: &stmt::Return) -> usize {
        s.value.as_ref().map(|e| e.accept(self)).unwrap_or(0)
    }
    fn visit_loop_stmt(&mut self, _s: &stmt::Loop) -> usize {
        0
    }
    fn visit_break_stmt(&mut self, _s: &stmt::Break) -> usize {
        0
    }
    fn visit_continue_stmt(&mut self, _s: &stmt::Continue) -> usize {
        0
    }
    fn visit_let_stmt(&mut self, _s: &stmt::Let) -> usize {
        0
    }
    fn visit_type_stmt(&mut self, _s: &stmt::Type) -> usize {
        0
    }
    fn visit_block_stmt(&mut self, s: &stmt::Block) -> usize {
        s.statements.iter().map(|t| t.accept(self)).sum()
    }
    fn visit_assignment_stmt(&mut self, _s: &stmt::Assignment) -> usize {
        0
    }
    fn visit_expression_stmt(&mut self, _s: &stmt::Expression) -> usize {
        0
    }
}

impl variant::Visitor for Counter {
    type Result = usize;

    fn visit_literal_variant(&mut self, _v: &variant::Literal) -> usize {
        1
    }
    fn visit_function_variant(&mut self, v: &variant::Function) -> usize {
        v.parameters.iter().map(|p| p.accept(self)).sum::<usize>()
            + v.output.as_ref().map(|o| o.accept(self)).unwrap_or(0)
    }
}

#[test]
fn visitors_dispatch_on_node_kind() {
    let mut scanner = Scanner::new("fn f(a: N): N { return g(a, -b) + (c && 1); }");
    let (tokens, _) = scanner.scan();
    let mut parser = Parser::new(tokens);
    let (statements, errors) = parser.parse();
    assert!(errors.is_empty());
    let mut counter = Counter { names: 0, nodes: 0 };
    let names = statements[0].accept(&mut counter);
    assert_eq!(names, 4);
    assert_eq!(counter.names, 4);
    assert_eq!(counter.nodes, 10);

    let name = Token { kind: Kind::Identifier, lexeme: "N".to_string(), line: 1 };
    let annotation = Variant::new_function(
        vec![Variant::new_literal(name.clone()), Variant::new_literal(name.clone())],
        Some(Variant::new_literal(name)),
    );
    assert_eq!(annotation.accept(&mut counter), 3);
    let literal = Expr::new_literal(Value::True);
    assert_eq!(literal.accept(&mut counter), 0);
}

#[test]
fn recovery_keeps_declaration_between_errors() {
    let mut scanner = Scanner::new("fn 1() {}\nfn ok() {}\nfn 2() {}");
    let (tokens, _) = scanner.scan();
    let mut parser = Parser::new(tokens);
    let (statements, errors) = parser.parse();
    assert_eq!(errors.len(), 2);
    assert_eq!((errors[0].line, errors[0].location.as_str()), (1, " at '1'"));
    assert_eq!((errors[1].line, errors[1].location.as_str()), (3, " at '2'"));
    assert!(errors.iter().all(|e| e.message == "Expect function name."));
    assert_eq!(statements.len(), 1);
    match &statements[0] {
        Stmt::Function(f) => assert_eq!(f.name.lexeme, "ok"),
        _ => panic!("not a function"),
    }
}

#[test]
fn subtraction_nests_left_and_star_binds_tighter() {
    let mut scanner = Scanner::new("fn f() { a - b - c * d; }");
    let (tokens, _) = scanner.scan();
    let mut parser = Parser::new(tokens);
    let (statements, errors) = parser.parse();
    assert!(errors.is_empty());
    let body = match &statements[0] {
        Stmt::Function(f) => match &f.body {
            Stmt::Block(b) => &b.statements,
            _ => panic!("body"),
        },
        _ => panic!("function"),
    };
    match &body[0] {
        Stmt::Expression(e) => match &e.expression {
            Expr::Binary(outer) => {
                assert_eq!(outer.operator.kind, Kind::Minus);
                match &outer.left {
                    Expr::Binary(l) => assert_eq!(l.operator.kind, Kind::Minus),
                    _ => panic!("left"),
                }
                match &outer.right {
                    Expr::Binary(r) => assert_eq!(r.operator.kind, Kind::Star),
                    _ => panic!("right"),
                }
            }
            _ => panic!("binary"),
        },
        _ => panic!("expression"),
    }
}
