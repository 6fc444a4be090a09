use blaze::error::{GenerateError, SyntaxError};
use blaze::expr::Expr;
use blaze::generator::Generator;
use blaze::kind::Kind;
use blaze::parser::Parser;
use blaze::scanner::Scanner;
use blaze::stmt::Stmt;
use blaze::token::Token;
use blaze::value::Value;
use blaze::variant::Variant;

fn scan(source: &str) -> (Vec<Token>, Vec<SyntaxError>) {
    let mut scanner = Scanner::new(source);
    scanner.scan()
}

fn parse(source: &str) -> (Vec<Stmt>, Vec<SyntaxError>) {
    let (tokens, errors) = scan(source);
    assert!(errors.is_empty(), "unexpected scan errors");
    let mut parser = Parser::new(tokens);
    parser.parse()
}

fn generate(source: &str) -> (String, Vec<GenerateError>) {
    let (statements, errors) = parse(source);
    assert!(errors.is_empty(), "unexpected parse errors");
    let mut generator = Generator::new();
    generator.generate(&statements)
}

fn kinds(tokens: &[Token]) -> Vec<Kind> {
    tokens.iter().map(|t| t.kind).collect()
}

fn function_body(statement: &Stmt) -> &Vec<Stmt> {
    match statement {
        Stmt::Function(f) => match &f.body {
            Stmt::Block(b) => &b.statements,
            _ => panic!("function body is not a block"),
        },
        _ => panic!("not a function"),
    }
}

#[test]
fn scan_ends_with_single_eof() {
    for source in ["", "fn", "fn f() {}\n", "@#$", "\"open", "let x: N = (1 +\n2);\n"] {
        let (tokens, _) = scan(source);
        let eofs = tokens.iter().filter(|t| t.kind == Kind::EOF).count();
        assert_eq!(eofs, 1);
        assert_eq!(tokens.last().unwrap().kind, Kind::EOF);
        assert_eq!(tokens.last().unwrap().lexeme, "");
    }
}

#[test]
fn scan_empty_source() {
    let (tokens, errors) = scan("");
    assert_eq!(kinds(&tokens), vec![Kind::EOF]);
    assert_eq!(tokens[0].line, 1);
    assert!(errors.is_empty());
}

#[test]
fn eof_line_counts_newlines() {
    let (tokens, _) = scan("a\nb\n\nc");
    assert_eq!(tokens.last().unwrap().line, 4);
}

#[test]
fn newline_inserts_terminator() {
    let (tokens, _) = scan("x\ny");
    assert_eq!(
        kinds(&tokens),
        vec![Kind::Identifier, Kind::Semicolon, Kind::Identifier, Kind::Semicolon, Kind::EOF]
    );
    assert_eq!(tokens[1].lexeme, ";");
}

#[test]
fn newline_after_brace_or_terminator_inserts_nothing() {
    let (tokens, _) = scan("{\n}\nx;\n");
    assert_eq!(
        kinds(&tokens),
        vec![Kind::LeftBrace, Kind::RightBrace, Kind::Identifier, Kind::Semicolon, Kind::EOF]
    );
}

#[test]
fn newline_inside_parentheses_inserts_nothing() {
    let (tokens, _) = scan("f(\n1,\n2\n)");
    assert_eq!(
        kinds(&tokens),
        vec![
            Kind::Identifier,
            Kind::LeftParen,
            Kind::Number,
            Kind::Comma,
            Kind::Number,
            Kind::RightParen,
            Kind::Semicolon,
            Kind::EOF
        ]
    );
}

#[test]
fn multiline_call_parses_as_one_let() {
    let (statements, errors) = parse("fn main() {\nlet x: Number = f(\n1,\n2\n);\n}");
    assert!(errors.is_empty());
    assert_eq!(statements.len(), 1);
    let body = function_body(&statements[0]);
    assert_eq!(body.len(), 1);
    match &body[0] {
        Stmt::Let(l) => {
            assert_eq!(l.name.lexeme, "x");
            match &l.initializer {
                Some(Expr::Call(c)) => assert_eq!(c.arguments.len(), 2),
                _ => panic!("initializer is not a call"),
            }
        }
        _ => panic!("not a let"),
    }
}

#[test]
fn two_character_operators() {
    let (tokens, errors) = scan("== != <= >= && || = ! < >");
    assert!(errors.is_empty());
    assert_eq!(
        kinds(&tokens),
        vec![
            Kind::EqualEqual,
            Kind::BangEqual,
            Kind::LessEqual,
            Kind::GreaterEqual,
            Kind::AmpAmp,
            Kind::BarBar,
            Kind::Equal,
            Kind::Bang,
            Kind::Less,
            Kind::Greater,
            Kind::Semicolon,
            Kind::EOF
        ]
    );
}

#[test]
fn single_ampersand_is_unexpected() {
    let (_, errors) = scan("a & b");
    assert_eq!(errors.len(), 1);
    assert_eq!(errors[0].message, "Unexpected character.");
}

#[test]
fn comments_are_discarded() {
    let (tokens, errors) = scan("x // a comment\ny");
    assert!(errors.is_empty());
    assert_eq!(
        kinds(&tokens),
        vec![Kind::Identifier, Kind::Semicolon, Kind::Identifier, Kind::Semicolon, Kind::EOF]
    );
}

#[test]
fn keywords_and_identifiers() {
    let (tokens, _) = scan("if else fn return false true loop break continue let type iffy _x1");
    assert_eq!(
        kinds(&tokens)[..13].to_vec(),
        vec![
            Kind::If,
            Kind::Else,
            Kind::Fn,
            Kind::Return,
            Kind::False,
            Kind::True,
            Kind::Loop,
            Kind::Break,
            Kind::Continue,
            Kind::Let,
            Kind::Type,
            Kind::Identifier,
            Kind::Identifier
        ]
    );
    assert_eq!(tokens[12].lexeme, "_x1");
}

#[test]
fn unexpected_characters_accumulate() {
    let (tokens, errors) = scan("@\nx\n#");
    assert_eq!(errors.len(), 2);
    assert_eq!(errors[0].line, 1);
    assert_eq!(errors[1].line, 3);
    assert!(errors.iter().all(|e| e.message == "Unexpected character." && e.location.is_empty()));
    assert!(tokens.iter().any(|t| t.kind == Kind::Identifier));
}

#[test]
fn unterminated_string_reported_once_at_start_line() {
    let (tokens, errors) = scan("x\n\"abc\ndef\nghi");
    let unterminated: Vec<&SyntaxError> =
        errors.iter().filter(|e| e.message == "Unterminated string.").collect();
    assert_eq!(unterminated.len(), 1);
    assert_eq!(unterminated[0].line, 2);
    assert_eq!(tokens.last().unwrap().kind, Kind::EOF);
}

#[test]
fn unterminated_string_after_other_errors() {
    let (_, errors) = scan("@ \"never closed");
    assert_eq!(errors.len(), 2);
    assert_eq!(errors[0].message, "Unexpected character.");
    assert_eq!(errors[1].message, "Unterminated string.");
    assert_eq!(errors[1].line, 1);
}

#[test]
fn string_token_keeps_quotes_and_counts_lines() {
    let (tokens, errors) = scan("\"a\nb\" x");
    assert!(errors.is_empty());
    assert_eq!(tokens[0].kind, Kind::String);
    assert_eq!(tokens[0].lexeme, "\"a\nb\"");
    assert_eq!(tokens[1].line, 2);
}

#[test]
fn number_lexeme_is_verbatim() {
    let (tokens, errors) = scan("3.1400 7. 12");
    assert_eq!(tokens[0].kind, Kind::Number);
    assert_eq!(tokens[0].lexeme, "3.1400");
    assert_eq!(tokens[1].kind, Kind::Number);
    assert_eq!(tokens[1].lexeme, "7");
    assert_eq!(tokens[2].kind, Kind::Number);
    assert_eq!(tokens[2].lexeme, "12");
    assert_eq!(errors.len(), 1);
    assert_eq!(errors[0].message, "Unexpected character.");
}

#[test]
fn invalid_assignment_target() {
    let (statements, errors) = parse("fn main() { 1 = 2; }");
    assert!(statements.is_empty());
    assert_eq!(errors.len(), 1);
    assert_eq!(errors[0].message, "Invalid assignment target.");
    assert_eq!(errors[0].location, " at '='");
    assert_eq!(errors[0].line, 1);
}

#[test]
fn assignment_to_undeclared_name() {
    let (statements, errors) = parse("fn main() { x = 2; }");
    assert!(errors.is_empty());
    let body = function_body(&statements[0]);
    assert_eq!(body.len(), 1);
    match &body[0] {
        Stmt::Assignment(a) => {
            assert_eq!(a.name.lexeme, "x");
            match &a.value {
                Expr::Literal(l) => match &l.value {
                    Value::Number(n) => assert_eq!(n, "2"),
                    _ => panic!("not a number"),
                },
                _ => panic!("not a literal"),
            }
        }
        _ => panic!("not an assignment"),
    }
}

#[test]
fn top_level_statement_is_rejected() {
    let (statements, errors) = parse("x = 2;");
    assert!(statements.is_empty());
    assert_eq!(errors.len(), 1);
    assert_eq!(errors[0].message, "Expect function or type declaration.");
    assert_eq!(errors[0].location, " at 'x'");
}

#[test]
fn independent_errors_are_all_collected() {
    let (statements, errors) = parse("fn 1() {}\nfn 2() {}\nfn ok() {}");
    assert_eq!(errors.len(), 2);
    assert_eq!(errors[0].line, 1);
    assert_eq!(errors[1].line, 2);
    assert_eq!(errors[0].message, "Expect function name.");
    assert_eq!(errors[0].location, " at '1'");
    assert_eq!(errors[1].location, " at '2'");
    assert_eq!(statements.len(), 1);
}

#[test]
fn error_at_end_of_input() {
    let (_, errors) = parse("type T =");
    assert_eq!(errors.len(), 1);
    assert_eq!(errors[0].location, " at ';'");
    let (_, errors) = parse("fn f() {");
    assert_eq!(errors.len(), 1);
    assert_eq!(errors[0].location, " at end");
    assert_eq!(errors[0].message, "Expect '}' after block.");
}

#[test]
fn function_with_two_parameters() {
    let source = "fn f(a: Number, b: Number): Number { return a + b; }";
    let (statements, errors) = parse(source);
    assert!(errors.is_empty());
    assert_eq!(statements.len(), 1);
    match &statements[0] {
        Stmt::Function(f) => {
            assert_eq!(f.name.lexeme, "f");
            assert_eq!(f.parameters.len(), 2);
            assert_eq!(f.parameters[0].0.lexeme, "a");
            assert_eq!(f.parameters[1].0.lexeme, "b");
            match &f.output {
                Some(Variant::Literal(l)) => assert_eq!(l.name.lexeme, "Number"),
                _ => panic!("output is not Number"),
            }
        }
        _ => panic!("not a function"),
    }
    let (text, errors) = generate(source);
    assert!(errors.is_empty());
    assert!(text.contains("(a + b)"));
    assert!(text.contains("fn f(a: Number, b: Number) -> Number { return (a + b); }"));
}

#[test]
fn number_text_preserved_in_output() {
    let (text, errors) = generate("fn main() { let x: Number = 3.1400; }");
    assert!(errors.is_empty());
    assert!(text.contains("let mut x: Number = 3.1400;"));
}

#[test]
fn generation_is_repeatable() {
    let (statements, errors) = parse(
        "type F = fn(Number, Bool): Number;\nfn main() {\nlet s: String = \"hi\"\nif s == \"hi\" { print(s); } else { loop { break; } }\n}",
    );
    assert!(errors.is_empty());
    let mut generator = Generator::new();
    let (first, first_errors) = generator.generate(&statements);
    let (second, second_errors) = generator.generate(&statements);
    assert_eq!(first, second);
    assert!(first_errors.is_empty() && second_errors.is_empty());
    let mut other = Generator::new();
    let (third, _) = other.generate(&statements);
    assert_eq!(first, third);
}

#[test]
fn output_starts_with_runtime() {
    let (text, _) = generate("");
    assert_eq!(text, blaze::generator::RUNTIME);
    let (text, _) = generate("type T = Number;");
    assert_eq!(text, format!("{}type T = Number;", blaze::generator::RUNTIME));
}

#[test]
fn lowering_of_statements() {
    let (text, errors) = generate(
        "fn g(): Bool {\nlet y: Number\ny = -1 * (2 - 3) / 4\nif !true || y < 2 && y >= 0 { return false; } else { continue; }\nloop { break; }\nreturn;\n}",
    );
    assert!(errors.is_empty());
    let body = text.strip_prefix(blaze::generator::RUNTIME).unwrap();
    assert_eq!(
        body,
        "fn g() -> Bool { let mut y: Number; y = (((-1) * ((2 - 3))) / 4); if ((!true) || ((y < 2) && (y >= 0))) { { return false; } } else { { continue; } } loop { break; } return; }"
    );
}

#[test]
fn lowering_of_calls_and_literals() {
    let (text, _) = generate("fn h() { f(1, \"s\", false,)(true); g(); }");
    let body = text.strip_prefix(blaze::generator::RUNTIME).unwrap();
    assert_eq!(body, "fn h() -> () { ((f)(1, \"s\", false))(true); (g)(); }");
}

#[test]
fn function_type_annotation() {
    let (text, _) = generate("type F = fn(A, B,): C;\ntype G = fn();");
    let body = text.strip_prefix(blaze::generator::RUNTIME).unwrap();
    assert_eq!(body, "type F = fn(A\nB) -> C; type G = fn() -> ();");
}

#[test]
fn unknown_operator_is_a_generation_error() {
    let operator = Token { kind: Kind::Question, lexeme: "?".to_string(), line: 7 };
    let one = Token { kind: Kind::Number, lexeme: "1".to_string(), line: 7 };
    let expression = Expr::new_binary(
        Expr::new_literal(Value::Number(one.lexeme.clone())),
        operator,
        Expr::new_variable(one),
    );
    let statement = Stmt::new_expression(expression);
    let mut generator = Generator::new();
    let (text, errors) = generator.generate(&[statement]);
    assert!(text.ends_with("();"));
    assert_eq!(errors.len(), 1);
    assert_eq!(errors[0].line, 7);
    assert_eq!(errors[0].message, "Unexpected operator.");
    assert_eq!(errors[0].render(), "[line 7] Error: Unexpected operator.");
}

#[test]
fn syntax_error_rendering() {
    let (_, errors) = parse("fn 1() {}");
    assert_eq!(errors[0].render(), "[line 1] Error at '1': Expect function name.");
    let (_, errors) = scan("\n\n\n\n\n\n\n\n\n\n@");
    assert_eq!(errors[0].render(), "[line 11] Error: Unexpected character.");
}

#[test]
fn decimal_rendering() {
    assert_eq!(blaze::error::decimal_string(0), "0");
    assert_eq!(blaze::error::decimal_string(907), "907");
    assert_eq!(blaze::error::decimal_string(usize::MAX), usize::MAX.to_string());
}
