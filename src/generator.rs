use vstd::prelude::*;

use crate::error::GenerateError;
use crate::expr::{Binary, Call, Expr, Grouping, Literal, Logical, Unary, Variable};
use crate::kind::Kind;
use crate::stmt::{
    Assignment, Block, Break, Continue, Expression, Function, If, Let, Loop, Return, Stmt, Type,
};
use crate::token::Token;
use crate::value::Value;
use crate::variant;
use crate::variant::Variant;

verus! {

/// Helpers that every generated program starts with.
pub const RUNTIME: &'static str = r#"
    #![allow(dead_code, unused_mut, unused_parens)]

    use std::fmt::Display;
    use std::time::{SystemTime, UNIX_EPOCH};

    fn clock() -> f64 {
        SystemTime::now()
            .duration_since(UNIX_EPOCH)
            .unwrap()
            .as_secs_f64()
    }

    fn print(value: impl Display) {
        println!("{}", value);
    }
"#;

/// The parts, with `sep` between each two neighbours.
pub open spec fn join(parts: Seq<Seq<char>>, sep: Seq<char>) -> Seq<char>
    decreases parts.len(),
{
    if parts.len() == 0 {
        Seq::empty()
    } else if parts.len() == 1 {
        parts[0]
    } else {
        join(parts.drop_last(), sep) + sep + parts.last()
    }
}

/// Target symbol of a logical operator.
pub open spec fn logical_symbol(kind: Kind) -> Option<Seq<char>> {
    match kind {
        Kind::AmpAmp => Some("&&"@),
        Kind::BarBar => Some("||"@),
        _ => None,
    }
}

/// Target symbol of a binary operator.
pub open spec fn binary_symbol(kind: Kind) -> Option<Seq<char>> {
    match kind {
        Kind::BangEqual => Some("!="@),
        Kind::EqualEqual => Some("=="@),
        Kind::LessEqual => Some("<="@),
        Kind::Less => Some("<"@),
        Kind::GreaterEqual => Some(">="@),
        Kind::Greater => Some(">"@),
        Kind::Plus => Some("+"@),
        Kind::Minus => Some("-"@),
        Kind::Star => Some("*"@),
        Kind::Slash => Some("/"@),
        _ => None,
    }
}

/// Target symbol of a unary operator.
pub open spec fn unary_symbol(kind: Kind) -> Option<Seq<char>> {
    match kind {
        Kind::Minus => Some("-"@),
        Kind::Bang => Some("!"@),
        _ => None,
    }
}

/// `(left op right)`, or the unit placeholder where the operator has no symbol.
pub open spec fn infix(op: Option<Seq<char>>, left: Seq<char>, right: Seq<char>) -> Seq<char> {
    match op {
        Some(o) => "("@ + left + " "@ + o + " "@ + right + ")"@,
        None => "()"@,
    }
}

/// The target text of a literal.
pub open spec fn render_value(v: Value) -> Seq<char> {
    match v {
        Value::False => "false"@,
        Value::True => "true"@,
        Value::Number(n) => n@,
        Value::String(s) => "\""@ + s@ + "\""@,
    }
}

/// The target text of an expression.
pub open spec fn render_expr(e: Expr) -> Seq<char>
    decreases e,
{
    match e {
        Expr::Logical(x) => infix(
            logical_symbol(x.operator.kind),
            render_expr(x.left),
            render_expr(x.right),
        ),
        Expr::Binary(x) => infix(
            binary_symbol(x.operator.kind),
            render_expr(x.left),
            render_expr(x.right),
        ),
        Expr::Unary(x) => match unary_symbol(x.operator.kind) {
            Some(o) => "("@ + o + render_expr(x.right) + ")"@,
            None => "()"@,
        },
        Expr::Call(x) => "("@ + render_expr(x.callee) + ")("@ + join(
            render_exprs(x.arguments@),
            ", "@,
        ) + ")"@,
        Expr::Grouping(x) => "("@ + render_expr(x.expression) + ")"@,
        Expr::Variable(x) => x.name.lexeme@,
        Expr::Literal(x) => render_value(x.value),
    }
}

/// The target text of each expression, in order.
pub open spec fn render_exprs(es: Seq<Expr>) -> Seq<Seq<char>>
    decreases es,
{
    if es.len() == 0 {
        Seq::empty()
    } else {
        render_exprs(es.drop_last()).push(render_expr(es.last()))
    }
}

/// Lines of the operators without a target symbol, in the order the
/// generator meets them: call arguments before the callee.
pub open spec fn expr_errors(e: Expr) -> Seq<usize>
    decreases e,
{
    match e {
        Expr::Logical(x) => if logical_symbol(x.operator.kind) is Some {
            expr_errors(x.left) + expr_errors(x.right)
        } else {
            seq![x.operator.line]
        },
        Expr::Binary(x) => if binary_symbol(x.operator.kind) is Some {
            expr_errors(x.left) + expr_errors(x.right)
        } else {
            seq![x.operator.line]
        },
        Expr::Unary(x) => if unary_symbol(x.operator.kind) is Some {
            expr_errors(x.right)
        } else {
            seq![x.operator.line]
        },
        Expr::Call(x) => exprs_errors(x.arguments@) + expr_errors(x.callee),
        Expr::Grouping(x) => expr_errors(x.expression),
        Expr::Variable(_) => Seq::empty(),
        Expr::Literal(_) => Seq::empty(),
    }
}

pub open spec fn exprs_errors(es: Seq<Expr>) -> Seq<usize>
    decreases es,
{
    if es.len() == 0 {
        Seq::empty()
    } else {
        exprs_errors(es.drop_last()) + expr_errors(es.last())
    }
}

/// The target text of a type annotation.
pub open spec fn render_variant(v: Variant) -> Seq<char>
    decreases v,
{
    match v {
        Variant::Literal(x) => x.name.lexeme@,
        Variant::Function(x) => "fn("@ + join(render_variants(x.parameters@), "\n"@) + ") -> "@
            + match x.output {
            Some(o) => render_variant(o),
            None => "()"@,
        },
    }
}

pub open spec fn render_variants(vs: Seq<Variant>) -> Seq<Seq<char>>
    decreases vs,
{
    if vs.len() == 0 {
        Seq::empty()
    } else {
        render_variants(vs.drop_last()).push(render_variant(vs.last()))
    }
}

/// `name: type` for each parameter, in order.
pub open spec fn render_parameters(ps: Seq<(Token, Variant)>) -> Seq<Seq<char>>
    decreases ps.len(),
{
    if ps.len() == 0 {
        Seq::empty()
    } else {
        render_parameters(ps.drop_last()).push(
            ps.last().0.lexeme@ + ": "@ + render_variant(ps.last().1),
        )
    }
}

/// The target text of a statement.
pub open spec fn render_stmt(s: Stmt) -> Seq<char>
    decreases s,
{
    match s {
        Stmt::If(x) => "if "@ + render_expr(x.condition) + " { "@ + render_stmt(x.then_branch)
            + " }"@ + match x.else_branch {
            Some(b) => " else { "@ + render_stmt(b) + " }"@,
            None => Seq::empty(),
        },
        Stmt::Function(x) => "fn "@ + x.name.lexeme@ + "("@ + join(
            render_parameters(x.parameters@),
            ", "@,
        ) + ") -> "@ + match x.output {
            Some(o) => render_variant(o),
            None => "()"@,
        } + " "@ + render_stmt(x.body),
        Stmt::Return(x) => match x.value {
            Some(e) => "return "@ + render_expr(e) + ";"@,
            None => "return;"@,
        },
        Stmt::Loop(x) => "loop "@ + render_stmt(x.body),
        Stmt::Break(_) => "break;"@,
        Stmt::Continue(_) => "continue;"@,
        Stmt::Let(x) => "let mut "@ + x.name.lexeme@ + ": "@ + render_variant(x.variant)
            + match x.initializer {
            Some(e) => " = "@ + render_expr(e),
            None => Seq::empty(),
        } + ";"@,
        Stmt::Type(x) => "type "@ + x.name.lexeme@ + " = "@ + render_variant(x.variant) + ";"@,
        Stmt::Block(x) => "{ "@ + join(render_stmts(x.statements@), " "@) + " }"@,
        Stmt::Assignment(x) => x.name.lexeme@ + " = "@ + render_expr(x.value) + ";"@,
        Stmt::Expression(x) => render_expr(x.expression) + ";"@,
    }
}

pub open spec fn render_stmts(ss: Seq<Stmt>) -> Seq<Seq<char>>
    decreases ss,
{
    if ss.len() == 0 {
        Seq::empty()
    } else {
        render_stmts(ss.drop_last()).push(render_stmt(ss.last()))
    }
}

/// Lines of the diagnostics that lowering a statement reports, in order: an
/// `else` branch is lowered before the condition and the `then` branch.
pub open spec fn stmt_errors(s: Stmt) -> Seq<usize>
    decreases s,
{
    match s {
        Stmt::If(x) => (match x.else_branch {
            Some(b) => stmt_errors(b),
            None => Seq::empty(),
        }) + expr_errors(x.condition) + stmt_errors(x.then_branch),
        Stmt::Function(x) => stmt_errors(x.body),
        Stmt::Return(x) => match x.value {
            Some(e) => expr_errors(e),
            None => Seq::empty(),
        },
        Stmt::Loop(x) => stmt_errors(x.body),
        Stmt::Let(x) => match x.initializer {
            Some(e) => expr_errors(e),
            None => Seq::empty(),
        },
        Stmt::Block(x) => stmts_errors(x.statements@),
        Stmt::Assignment(x) => expr_errors(x.value),
        Stmt::Expression(x) => expr_errors(x.expression),
        _ => Seq::empty(),
    }
}

pub open spec fn stmts_errors(ss: Seq<Stmt>) -> Seq<usize>
    decreases ss,
{
    if ss.len() == 0 {
        Seq::empty()
    } else {
        stmts_errors(ss.drop_last()) + stmt_errors(ss.last())
    }
}

/// The whole generated program: the runtime helpers, then each top-level
/// statement, separated by spaces.
pub open spec fn render_program(ss: Seq<Stmt>) -> Seq<char> {
    RUNTIME@ + join(render_stmts(ss), " "@)
}

/// The lines of a list of diagnostics.
pub open spec fn error_lines(errors: Seq<GenerateError>) -> Seq<usize> {
    errors.map_values(|e: GenerateError| e.line)
}

/// Every diagnostic reports an operator without a target symbol.
pub open spec fn all_unexpected(errors: Seq<GenerateError>) -> bool {
    forall|i: int| 0 <= i < errors.len() ==> (#[trigger] errors[i]).message@ == "Unexpected operator."@
}

/// What `generate` hands back for the statements: the program text, and one
/// diagnostic for each operator without a target symbol, in order.
pub open spec fn generated(ss: Seq<Stmt>, text: Seq<char>, errors: Seq<GenerateError>) -> bool {
    &&& text == render_program(ss)
    &&& error_lines(errors) == stmts_errors(ss)
    &&& all_unexpected(errors)
}

/// Lowering is a function of the statements alone: generating twice from
/// the same statements gives the same text and the same diagnostics.
pub proof fn lemma_generate_repeatable(
    ss: Seq<Stmt>,
    text1: Seq<char>,
    errors1: Seq<GenerateError>,
    text2: Seq<char>,
    errors2: Seq<GenerateError>,
)
    requires
        generated(ss, text1, errors1),
        generated(ss, text2, errors2),
    ensures
        text1 == text2,
        error_lines(errors1) == error_lines(errors2),
        errors1.len() == errors2.len(),
        forall|i: int|
            0 <= i < errors1.len() ==> (#[trigger] errors1[i]).line == errors2[i].line
                && errors1[i].message@ == errors2[i].message@,
{
    assert(error_lines(errors1).len() == errors1.len());
    assert(error_lines(errors2).len() == errors2.len());
    assert forall|i: int| 0 <= i < errors1.len() implies (#[trigger] errors1[i]).line
        == errors2[i].line && errors1[i].message@ == errors2[i].message@ by {
        assert(error_lines(errors1)[i] == error_lines(errors2)[i]);
    }
}

/// The views of a list of strings.
pub open spec fn views(parts: Seq<String>) -> Seq<Seq<char>> {
    parts.map_values(|p: String| p@)
}

fn join_strings(parts: &Vec<String>, sep: &str) -> (r: String)
    ensures
        r@ == join(views(parts@), sep@),
{
    let mut out = String::new();
    let mut i: usize = 0;
    while i < parts.len()
        invariant
            i <= parts.len(),
            out@ == join(views(parts@.subrange(0, i as int)), sep@),
        decreases parts.len() - i,
    {
        let ghost before = out@;
        if i > 0 {
            out.append(sep);
        }
        out.append(parts[i].as_str());
        proof {
            let v = views(parts@.subrange(0, i + 1));
            assert(v.drop_last() =~= views(parts@.subrange(0, i as int)));
            if i == 0 {
                assert(before =~= Seq::<char>::empty());
                assert(out@ =~= parts@[0]@);
            }
        }
        i = i + 1;
    }
    assert(parts@.subrange(0, parts@.len() as int) =~= parts@);
    out
}

proof fn lemma_error_lines_push(errors: Seq<GenerateError>, e: GenerateError)
    ensures
        error_lines(errors.push(e)) == error_lines(errors).push(e.line),
{
    assert(error_lines(errors.push(e)) =~= error_lines(errors).push(e.line));
}

/// Lowers a syntax tree to target text, collecting every lowering error.
pub struct Generator {
    errors: Vec<GenerateError>,
}

impl Generator {
    /// Holds no diagnostics between runs.
    pub closed spec fn wf(&self) -> bool {
        self.errors@.len() == 0
    }

    pub fn new() -> (r: Self)
        ensures
            r.wf(),
    {
        Generator { errors: Vec::new() }
    }

    /// Lowers the statements, in order, after the runtime helpers.
    pub fn generate(&mut self, statements: &[Stmt]) -> (r: (String, Vec<GenerateError>))
        requires
            old(self).wf(),
        ensures
            final(self).wf(),
            generated(statements@, r.0@, r.1@),
    {
        let mut parts: Vec<String> = Vec::new();
        let mut i: usize = 0;
        while i < statements.len()
            invariant
                i <= statements.len(),
                views(parts@) == render_stmts(statements@.subrange(0, i as int)),
                error_lines(self.errors@) == stmts_errors(statements@.subrange(0, i as int)),
                all_unexpected(self.errors@),
            decreases statements.len() - i,
        {
            let text = self.stmt(&statements[i]);
            parts.push(text);
            proof {
                let sub = statements@.subrange(0, i + 1);
                assert(sub.drop_last() =~= statements@.subrange(0, i as int));
                assert(views(parts@) =~= render_stmts(sub));
                assert(error_lines(self.errors@) =~= stmts_errors(sub));
            }
            i = i + 1;
        }
        assert(statements@.subrange(0, statements@.len() as int) =~= statements@);
        let body = join_strings(&parts, " ");
        let mut output = String::from_str(RUNTIME);
        output.append(body.as_str());
        let mut errors: Vec<GenerateError> = Vec::new();
        core::mem::swap(&mut self.errors, &mut errors);
        (output, errors)
    }

    /// Records a diagnostic and stands in the unit value for the node.
    fn error(&mut self, line: usize) -> (r: String)
        requires
            all_unexpected(old(self).errors@),
        ensures
            r@ == "()"@,
            all_unexpected(final(self).errors@),
            error_lines(final(self).errors@) == error_lines(old(self).errors@).push(line),
    {
        let e = GenerateError { line, message: String::from_str("Unexpected operator.") };
        proof {
            lemma_error_lines_push(self.errors@, e);
        }
        self.errors.push(e);
        assert(forall|i: int|
            0 <= i < old(self).errors@.len() ==> self.errors@[i] == old(self).errors@[i]);
        String::from_str("()")
    }

    fn expr(&mut self, e: &Expr) -> (r: String)
        requires
            all_unexpected(old(self).errors@),
        ensures
            r@ == render_expr(*e),
            all_unexpected(final(self).errors@),
            error_lines(final(self).errors@) == error_lines(old(self).errors@) + expr_errors(*e),
        decreases e,
    {
        match e {
            Expr::Logical(x) => self.visit_logical_expr(x),
            Expr::Binary(x) => self.visit_binary_expr(x),
            Expr::Unary(x) => self.visit_unary_expr(x),
            Expr::Call(x) => self.visit_call_expr(x),
            Expr::Grouping(x) => self.visit_grouping_expr(x),
            Expr::Variable(x) => self.visit_variable_expr(x),
            Expr::Literal(x) => self.visit_literal_expr(x),
        }
    }

    fn visit_logical_expr(&mut self, expr: &Logical) -> (r: String)
        requires
            all_unexpected(old(self).errors@),
        ensures
            r@ == render_expr(Expr::Logical(Box::new(*expr))),
            all_unexpected(final(self).errors@),
            error_lines(final(self).errors@) == error_lines(old(self).errors@) + expr_errors(
                Expr::Logical(Box::new(*expr)),
            ),
        decreases expr,
    {
        let op = match expr.operator.kind {
            Kind::AmpAmp => "&&",
            Kind::BarBar => "||",
            _ => {
                return self.error(expr.operator.line);
            },
        };
        let left = self.expr(&expr.left);
        let right = self.expr(&expr.right);
        let mut s = String::from_str("(");
        s.append(left.as_str());
        s.append(" ");
        s.append(op);
        s.append(" ");
        s.append(right.as_str());
        s.append(")");
        assert(error_lines(self.errors@) =~= error_lines(old(self).errors@) + expr_errors(
            Expr::Logical(Box::new(*expr)),
        ));
        s
    }

    fn visit_binary_expr(&mut self, expr: &Binary) -> (r: String)
        requires
            all_unexpected(old(self).errors@),
        ensures
            r@ == render_expr(Expr::Binary(Box::new(*expr))),
            all_unexpected(final(self).errors@),
            error_lines(final(self).errors@) == error_lines(old(self).errors@) + expr_errors(
                Expr::Binary(Box::new(*expr)),
            ),
        decreases expr,
    {
        let op = match expr.operator.kind {
            Kind::BangEqual => "!=",
            Kind::EqualEqual => "==",
            Kind::LessEqual => "<=",
            Kind::Less => "<",
            Kind::GreaterEqual => ">=",
            Kind::Greater => ">",
            Kind::Plus => "+",
            Kind::Minus => "-",
            Kind::Star => "*",
            Kind::Slash => "/",
            _ => {
                return self.error(expr.operator.line);
            },
        };
        let left = self.expr(&expr.left);
        let right = self.expr(&expr.right);
        let mut s = String::from_str("(");
        s.append(left.as_str());
        s.append(" ");
        s.append(op);
        s.append(" ");
        s.append(right.as_str());
        s.append(")");
        assert(error_lines(self.errors@) =~= error_lines(old(self).errors@) + expr_errors(
            Expr::Binary(Box::new(*expr)),
        ));
        s
    }

    fn visit_unary_expr(&mut self, expr: &Unary) -> (r: String)
        requires
            all_unexpected(old(self).errors@),
        ensures
            r@ == render_expr(Expr::Unary(Box::new(*expr))),
            all_unexpected(final(self).errors@),
            error_lines(final(self).errors@) == error_lines(old(self).errors@) + expr_errors(
                Expr::Unary(Box::new(*expr)),
            ),
        decreases expr,
    {
        let op = match expr.operator.kind {
            Kind::Minus => "-",
            Kind::Bang => "!",
            _ => {
                return self.error(expr.operator.line);
            },
        };
        let right = self.expr(&expr.right);
        let mut s = String::from_str("(");
        s.append(op);
        s.append(right.as_str());
        s.append(")");
        s
    }

    fn visit_call_expr(&mut self, expr: &Call) -> (r: String)
        requires
            all_unexpected(old(self).errors@),
        ensures
            r@ == render_expr(Expr::Call(Box::new(*expr))),
            all_unexpected(final(self).errors@),
            error_lines(final(self).errors@) == error_lines(old(self).errors@) + expr_errors(
                Expr::Call(Box::new(*expr)),
            ),
        decreases expr,
    {
        let args = &expr.arguments;
        let mut parts: Vec<String> = Vec::new();
        let mut i: usize = 0;
        while i < args.len()
            invariant
                i <= args.len(),
                args == &expr.arguments,
                views(parts@) == render_exprs(args@.subrange(0, i as int)),
                error_lines(self.errors@) == error_lines(old(self).errors@) + exprs_errors(
                    args@.subrange(0, i as int),
                ),
                all_unexpected(self.errors@),
            decreases args.len() - i,
        {
            let text = self.expr(&args[i]);
            parts.push(text);
            proof {
                let sub = args@.subrange(0, i + 1);
                assert(sub.drop_last() =~= args@.subrange(0, i as int));
                assert(views(parts@) =~= render_exprs(sub));
                assert(error_lines(self.errors@) =~= error_lines(old(self).errors@) + exprs_errors(
                    sub,
                ));
            }
            i = i + 1;
        }
        assert(args@.subrange(0, args@.len() as int) =~= args@);
        let callee = self.expr(&expr.callee);
        let joined = join_strings(&parts, ", ");
        let mut s = String::from_str("(");
        s.append(callee.as_str());
        s.append(")(");
        s.append(joined.as_str());
        s.append(")");
        assert(error_lines(self.errors@) =~= error_lines(old(self).errors@) + expr_errors(
            Expr::Call(Box::new(*expr)),
        ));
        s
    }

    fn visit_grouping_expr(&mut self, expr: &Grouping) -> (r: String)
        requires
            all_unexpected(old(self).errors@),
        ensures
            r@ == render_expr(Expr::Grouping(Box::new(*expr))),
            all_unexpected(final(self).errors@),
            error_lines(final(self).errors@) == error_lines(old(self).errors@) + expr_errors(
                Expr::Grouping(Box::new(*expr)),
            ),
        decreases expr,
    {
        let inner = self.expr(&expr.expression);
        let mut s = String::from_str("(");
        s.append(inner.as_str());
        s.append(")");
        s
    }

    fn visit_variable_expr(&mut self, expr: &Variable) -> (r: String)
        ensures
            r@ == render_expr(Expr::Variable(Box::new(*expr))),
            *final(self) == *old(self),
    {
        expr.name.lexeme.clone()
    }

    fn visit_literal_expr(&mut self, expr: &Literal) -> (r: String)
        ensures
            r@ == render_expr(Expr::Literal(Box::new(*expr))),
            *final(self) == *old(self),
    {
        match &expr.value {
            Value::False => String::from_str("false"),
            Value::True => String::from_str("true"),
            Value::Number(number) => number.clone(),
            Value::String(string) => {
                let mut s = String::from_str("\"");
                s.append(string.as_str());
                s.append("\"");
                s
            },
        }
    }
}

impl Generator {
    fn stmt(&mut self, s: &Stmt) -> (r: String)
        requires
            all_unexpected(old(self).errors@),
        ensures
            r@ == render_stmt(*s),
            all_unexpected(final(self).errors@),
            error_lines(final(self).errors@) == error_lines(old(self).errors@) + stmt_errors(*s),
        decreases s,
    {
        match s {
            Stmt::If(x) => self.visit_if_stmt(x),
            Stmt::Function(x) => self.visit_function_stmt(x),
            Stmt::Return(x) => self.visit_return_stmt(x),
            Stmt::Loop(x) => self.visit_loop_stmt(x),
            Stmt::Break(x) => self.visit_break_stmt(x),
            Stmt::Continue(x) => self.visit_continue_stmt(x),
            Stmt::Let(x) => self.visit_let_stmt(x),
            Stmt::Type(x) => self.visit_type_stmt(x),
            Stmt::Block(x) => self.visit_block_stmt(x),
            Stmt::Assignment(x) => self.visit_assignment_stmt(x),
            Stmt::Expression(x) => self.visit_expression_stmt(x),
        }
    }

    fn visit_if_stmt(&mut self, stmt: &If) -> (r: String)
        requires
            all_unexpected(old(self).errors@),
        ensures
            r@ == render_stmt(Stmt::If(Box::new(*stmt))),
            all_unexpected(final(self).errors@),
            error_lines(final(self).errors@) == error_lines(old(self).errors@) + stmt_errors(
                Stmt::If(Box::new(*stmt)),
            ),
        decreases stmt,
    {
        let else_branch = match &stmt.else_branch {
            Some(branch) => {
                let inner = self.stmt(branch);
                let mut t = String::from_str(" else { ");
                t.append(inner.as_str());
                t.append(" }");
                t
            },
            None => String::new(),
        };
        let condition = self.expr(&stmt.condition);
        let then_branch = self.stmt(&stmt.then_branch);
        let mut s = String::from_str("if ");
        s.append(condition.as_str());
        s.append(" { ");
        s.append(then_branch.as_str());
        s.append(" }");
        s.append(else_branch.as_str());
        assert(error_lines(self.errors@) =~= error_lines(old(self).errors@) + stmt_errors(
            Stmt::If(Box::new(*stmt)),
        ));
        s
    }

    fn visit_function_stmt(&mut self, stmt: &Function) -> (r: String)
        requires
            all_unexpected(old(self).errors@),
        ensures
            r@ == render_stmt(Stmt::Function(Box::new(*stmt))),
            all_unexpected(final(self).errors@),
            error_lines(final(self).errors@) == error_lines(old(self).errors@) + stmt_errors(
                Stmt::Function(Box::new(*stmt)),
            ),
        decreases stmt,
    {
        let params = &stmt.parameters;
        let mut parts: Vec<String> = Vec::new();
        let mut i: usize = 0;
        while i < params.len()
            invariant
                i <= params.len(),
                params == &stmt.parameters,
                views(parts@) == render_parameters(params@.subrange(0, i as int)),
            decreases params.len() - i,
        {
            let variant = self.visit_variant(&params[i].1);
            let mut p = params[i].0.lexeme.clone();
            p.append(": ");
            p.append(variant.as_str());
            parts.push(p);
            proof {
                let sub = params@.subrange(0, i + 1);
                assert(sub.drop_last() =~= params@.subrange(0, i as int));
                assert(views(parts@) =~= render_parameters(sub));
            }
            i = i + 1;
        }
        assert(params@.subrange(0, params@.len() as int) =~= params@);
        let joined = join_strings(&parts, ", ");
        let output = match &stmt.output {
            Some(variant) => self.visit_variant(variant),
            None => String::from_str("()"),
        };
        let body = self.stmt(&stmt.body);
        let mut s = String::from_str("fn ");
        s.append(stmt.name.lexeme.as_str());
        s.append("(");
        s.append(joined.as_str());
        s.append(") -> ");
        s.append(output.as_str());
        s.append(" ");
        s.append(body.as_str());
        s
    }

    fn visit_return_stmt(&mut self, stmt: &Return) -> (r: String)
        requires
            all_unexpected(old(self).errors@),
        ensures
            r@ == render_stmt(Stmt::Return(Box::new(*stmt))),
            all_unexpected(final(self).errors@),
            error_lines(final(self).errors@) == error_lines(old(self).errors@) + stmt_errors(
                Stmt::Return(Box::new(*stmt)),
            ),
        decreases stmt,
    {
        match &stmt.value {
            Some(expression) => {
                let value = self.expr(expression);
                let mut s = String::from_str("return ");
                s.append(value.as_str());
                s.append(";");
                s
            },
            None => {
                assert(error_lines(self.errors@) =~= error_lines(old(self).errors@) + stmt_errors(
                    Stmt::Return(Box::new(*stmt)),
                ));
                String::from_str("return;")
            },
        }
    }

    fn visit_loop_stmt(&mut self, stmt: &Loop) -> (r: String)
        requires
            all_unexpected(old(self).errors@),
        ensures
            r@ == render_stmt(Stmt::Loop(Box::new(*stmt))),
            all_unexpected(final(self).errors@),
            error_lines(final(self).errors@) == error_lines(old(self).errors@) + stmt_errors(
                Stmt::Loop(Box::new(*stmt)),
            ),
        decreases stmt,
    {
        let body = self.stmt(&stmt.body);
        let mut s = String::from_str("loop ");
        s.append(body.as_str());
        s
    }

    fn visit_break_stmt(&mut self, stmt: &Break) -> (r: String)
        requires
            all_unexpected(old(self).errors@),
        ensures
            r@ == render_stmt(Stmt::Break(Box::new(*stmt))),
            all_unexpected(final(self).errors@),
            error_lines(final(self).errors@) == error_lines(old(self).errors@) + stmt_errors(
                Stmt::Break(Box::new(*stmt)),
            ),
        decreases stmt,
    {
        assert(error_lines(self.errors@) =~= error_lines(old(self).errors@) + stmt_errors(
            Stmt::Break(Box::new(*stmt)),
        ));
        String::from_str("break;")
    }

    fn visit_continue_stmt(&mut self, stmt: &Continue) -> (r: String)
        requires
            all_unexpected(old(self).errors@),
        ensures
            r@ == render_stmt(Stmt::Continue(Box::new(*stmt))),
            all_unexpected(final(self).errors@),
            error_lines(final(self).errors@) == error_lines(old(self).errors@) + stmt_errors(
                Stmt::Continue(Box::new(*stmt)),
            ),
        decreases stmt,
    {
        assert(error_lines(self.errors@) =~= error_lines(old(self).errors@) + stmt_errors(
            Stmt::Continue(Box::new(*stmt)),
        ));
        String::from_str("continue;")
    }

    fn visit_let_stmt(&mut self, stmt: &Let) -> (r: String)
        requires
            all_unexpected(old(self).errors@),
        ensures
            r@ == render_stmt(Stmt::Let(Box::new(*stmt))),
            all_unexpected(final(self).errors@),
            error_lines(final(self).errors@) == error_lines(old(self).errors@) + stmt_errors(
                Stmt::Let(Box::new(*stmt)),
            ),
        decreases stmt,
    {
        let initializer = match &stmt.initializer {
            Some(expression) => {
                let value = self.expr(expression);
                let mut t = String::from_str(" = ");
                t.append(value.as_str());
                t
            },
            None => {
                assert(error_lines(self.errors@) =~= error_lines(old(self).errors@) + stmt_errors(
                    Stmt::Let(Box::new(*stmt)),
                ));
                String::new()
            },
        };
        let variant = self.visit_variant(&stmt.variant);
        let mut s = String::from_str("let mut ");
        s.append(stmt.name.lexeme.as_str());
        s.append(": ");
        s.append(variant.as_str());
        s.append(initializer.as_str());
        s.append(";");
        s
    }

    fn visit_type_stmt(&mut self, stmt: &Type) -> (r: String)
        requires
            all_unexpected(old(self).errors@),
        ensures
            r@ == render_stmt(Stmt::Type(Box::new(*stmt))),
            all_unexpected(final(self).errors@),
            error_lines(final(self).errors@) == error_lines(old(self).errors@) + stmt_errors(
                Stmt::Type(Box::new(*stmt)),
            ),
        decreases stmt,
    {
        let variant = self.visit_variant(&stmt.variant);
        let mut s = String::from_str("type ");
        s.append(stmt.name.lexeme.as_str());
        s.append(" = ");
        s.append(variant.as_str());
        s.append(";");
        assert(error_lines(self.errors@) =~= error_lines(old(self).errors@) + stmt_errors(
            Stmt::Type(Box::new(*stmt)),
        ));
        s
    }

    fn visit_block_stmt(&mut self, stmt: &Block) -> (r: String)
        requires
            all_unexpected(old(self).errors@),
        ensures
            r@ == render_stmt(Stmt::Block(Box::new(*stmt))),
            all_unexpected(final(self).errors@),
            error_lines(final(self).errors@) == error_lines(old(self).errors@) + stmt_errors(
                Stmt::Block(Box::new(*stmt)),
            ),
        decreases stmt,
    {
        let statements = &stmt.statements;
        let mut parts: Vec<String> = Vec::new();
        let mut i: usize = 0;
        while i < statements.len()
            invariant
                i <= statements.len(),
                statements == &stmt.statements,
                views(parts@) == render_stmts(statements@.subrange(0, i as int)),
                error_lines(self.errors@) == error_lines(old(self).errors@) + stmts_errors(
                    statements@.subrange(0, i as int),
                ),
                all_unexpected(self.errors@),
            decreases statements.len() - i,
        {
            let text = self.stmt(&statements[i]);
            parts.push(text);
            proof {
                let sub = statements@.subrange(0, i + 1);
                assert(sub.drop_last() =~= statements@.subrange(0, i as int));
                assert(views(parts@) =~= render_stmts(sub));
                assert(error_lines(self.errors@) =~= error_lines(old(self).errors@) + stmts_errors(
                    sub,
                ));
            }
            i = i + 1;
        }
        assert(statements@.subrange(0, statements@.len() as int) =~= statements@);
        let joined = join_strings(&parts, " ");
        let mut s = String::from_str("{ ");
        s.append(joined.as_str());
        s.append(" }");
        s
    }

    fn visit_assignment_stmt(&mut self, stmt: &Assignment) -> (r: String)
        requires
            all_unexpected(old(self).errors@),
        ensures
            r@ == render_stmt(Stmt::Assignment(Box::new(*stmt))),
            all_unexpected(final(self).errors@),
            error_lines(final(self).errors@) == error_lines(old(self).errors@) + stmt_errors(
                Stmt::Assignment(Box::new(*stmt)),
            ),
        decreases stmt,
    {
        let value = self.expr(&stmt.value);
        let mut s = stmt.name.lexeme.clone();
        s.append(" = ");
        s.append(value.as_str());
        s.append(";");
        s
    }

    fn visit_expression_stmt(&mut self, stmt: &Expression) -> (r: String)
        requires
            all_unexpected(old(self).errors@),
        ensures
            r@ == render_stmt(Stmt::Expression(Box::new(*stmt))),
            all_unexpected(final(self).errors@),
            error_lines(final(self).errors@) == error_lines(old(self).errors@) + stmt_errors(
                Stmt::Expression(Box::new(*stmt)),
            ),
        decreases stmt,
    {
        let value = self.expr(&stmt.expression);
        let mut s = value;
        s.append(";");
        s
    }

    fn visit_variant(&self, v: &Variant) -> (r: String)
        ensures
            r@ == render_variant(*v),
        decreases v,
    {
        match v {
            Variant::Literal(x) => self.visit_literal_variant(x),
            Variant::Function(x) => self.visit_function_variant(x),
        }
    }

    fn visit_literal_variant(&self, variant: &variant::Literal) -> (r: String)
        ensures
            r@ == render_variant(Variant::Literal(Box::new(*variant))),
    {
        variant.name.lexeme.clone()
    }

    fn visit_function_variant(&self, variant: &variant::Function) -> (r: String)
        ensures
            r@ == render_variant(Variant::Function(Box::new(*variant))),
        decreases variant,
    {
        let params = &variant.parameters;
        let mut parts: Vec<String> = Vec::new();
        let mut i: usize = 0;
        while i < params.len()
            invariant
                i <= params.len(),
                params == &variant.parameters,
                views(parts@) == render_variants(params@.subrange(0, i as int)),
            decreases params.len() - i,
        {
            let text = self.visit_variant(&params[i]);
            parts.push(text);
            proof {
                let sub = params@.subrange(0, i + 1);
                assert(sub.drop_last() =~= params@.subrange(0, i as int));
                assert(views(parts@) =~= render_variants(sub));
            }
            i = i + 1;
        }
        assert(params@.subrange(0, params@.len() as int) =~= params@);
        let joined = join_strings(&parts, "\n");
        let output = match &variant.output {
            Some(o) => self.visit_variant(o),
            None => String::from_str("()"),
        };
        let mut s = String::from_str("fn(");
        s.append(joined.as_str());
        s.append(") -> ");
        s.append(output.as_str());
        s
    }
}

} // verus!
