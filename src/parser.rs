use vstd::prelude::*;

use crate::error::SyntaxError;
use crate::expr::Expr;
use crate::generator::{
    binary_symbol, expr_errors, exprs_errors, logical_symbol, stmt_errors, stmts_errors,
    unary_symbol,
};
use crate::kind::Kind;
use crate::stmt::Stmt;
use crate::token::Token;
use crate::value::Value;
use crate::variant::Variant;

verus! {

/// Where a diagnostic about `token` points: `" at end"` for the end of
/// input, `" at '<lexeme>'"` otherwise.
pub open spec fn location_of(token: Token) -> Seq<char> {
    if token.kind == Kind::EOF {
        " at end"@
    } else {
        " at '"@ + token.lexeme@ + "'"@
    }
}

/// The diagnostic points at `token`.
pub open spec fn reports_at(e: SyntaxError, token: Token) -> bool {
    e.line == token.line && e.location@ == location_of(token)
}

/// The diagnostic points at one of the tokens from `from` to `to`.
pub open spec fn located(e: SyntaxError, tokens: Seq<Token>, from: int, to: int) -> bool {
    exists|k: int| 0 <= from <= k <= to && k < tokens.len() && reports_at(e, #[trigger] tokens[k])
}

/// Each diagnostic points at its own token, and they come in input order.
pub open spec fn reported_in_order(errors: Seq<SyntaxError>, tokens: Seq<Token>) -> bool {
    exists|marks: Seq<int>|
        {
            &&& marks.len() == errors.len()
            &&& forall|i: int|
                0 <= i < marks.len() ==> 0 <= #[trigger] marks[i] < tokens.len() && reports_at(
                    errors[i],
                    tokens[marks[i]],
                )
            &&& forall|i: int, j: int| 0 <= i < j < marks.len() ==> #[trigger] marks[i] < #[trigger] marks[j]
        }
}

/// How tightly an infix operator binds: `||` loosest, then `&&`, equality,
/// comparison, `+` and `-`, and `*` and `/` tightest.
pub open spec fn op_prec(kind: Kind) -> nat {
    match kind {
        Kind::BarBar => 1,
        Kind::AmpAmp => 2,
        Kind::BangEqual | Kind::EqualEqual => 3,
        Kind::Greater | Kind::GreaterEqual | Kind::Less | Kind::LessEqual => 4,
        Kind::Minus | Kind::Plus => 5,
        Kind::Slash | Kind::Star => 6,
        _ => 0,
    }
}

/// How tightly the top node of an expression binds: an infix node as its
/// operator, a prefix operator above all infix ones, and calls, groupings,
/// names and literals tightest.
pub open spec fn prec(e: Expr) -> nat {
    match e {
        Expr::Logical(x) => op_prec(x.operator.kind),
        Expr::Binary(x) => op_prec(x.operator.kind),
        Expr::Unary(_) => 7,
        _ => 8,
    }
}

/// The operands of an infix node respect precedence and left associativity:
/// the left operand binds at least as tightly as the operator, the right one
/// strictly more tightly.
pub open spec fn infix_ok(kind: Kind, left: Expr, right: Expr) -> bool {
    prec(left) >= op_prec(kind) && prec(right) > op_prec(kind)
}

/// The shape the parser gives an expression: every operator is one that its
/// node kind lowers, operands are nested by precedence and left
/// associativity, and every name is an identifier.
pub open spec fn expr_wf(e: Expr) -> bool
    decreases e,
{
    match e {
        Expr::Logical(x) => logical_symbol(x.operator.kind) is Some && infix_ok(
            x.operator.kind,
            x.left,
            x.right,
        ) && expr_wf(x.left) && expr_wf(x.right),
        Expr::Binary(x) => binary_symbol(x.operator.kind) is Some && infix_ok(
            x.operator.kind,
            x.left,
            x.right,
        ) && expr_wf(x.left) && expr_wf(x.right),
        Expr::Unary(x) => unary_symbol(x.operator.kind) is Some && prec(x.right) >= 7 && expr_wf(
            x.right,
        ),
        Expr::Call(x) => prec(x.callee) == 8 && expr_wf(x.callee) && exprs_wf(x.arguments@),
        Expr::Grouping(x) => expr_wf(x.expression),
        Expr::Variable(x) => x.name.kind == Kind::Identifier,
        Expr::Literal(_) => true,
    }
}

pub open spec fn exprs_wf(es: Seq<Expr>) -> bool
    decreases es,
{
    if es.len() == 0 {
        true
    } else {
        exprs_wf(es.drop_last()) && expr_wf(es.last())
    }
}

/// The shape the parser gives a type annotation: every name is an identifier.
pub open spec fn variant_wf(v: Variant) -> bool
    decreases v,
{
    match v {
        Variant::Literal(x) => x.name.kind == Kind::Identifier,
        Variant::Function(x) => variants_wf(x.parameters@) && match x.output {
            Some(o) => variant_wf(o),
            None => true,
        },
    }
}

pub open spec fn variants_wf(vs: Seq<Variant>) -> bool
    decreases vs,
{
    if vs.len() == 0 {
        true
    } else {
        variants_wf(vs.drop_last()) && variant_wf(vs.last())
    }
}

/// Each parameter is an identifier with a well-formed type.
pub open spec fn parameters_wf(ps: Seq<(Token, Variant)>) -> bool {
    forall|i: int|
        0 <= i < ps.len() ==> (#[trigger] ps[i]).0.kind == Kind::Identifier && variant_wf(ps[i].1)
}

/// The shape the parser gives a statement: its expressions and type
/// annotations are well formed, and every name it binds is an identifier.
pub open spec fn stmt_wf(s: Stmt) -> bool
    decreases s,
{
    match s {
        Stmt::If(x) => expr_wf(x.condition) && stmt_wf(x.then_branch) && match x.else_branch {
            Some(b) => stmt_wf(b),
            None => true,
        },
        Stmt::Function(x) => {
            &&& x.name.kind == Kind::Identifier
            &&& parameters_wf(x.parameters@)
            &&& match x.output {
                Some(o) => variant_wf(o),
                None => true,
            }
            &&& stmt_wf(x.body)
        },
        Stmt::Return(x) => match x.value {
            Some(e) => expr_wf(e),
            None => true,
        },
        Stmt::Loop(x) => stmt_wf(x.body),
        Stmt::Let(x) => {
            &&& x.name.kind == Kind::Identifier
            &&& variant_wf(x.variant)
            &&& match x.initializer {
                Some(e) => expr_wf(e),
                None => true,
            }
        },
        Stmt::Type(x) => x.name.kind == Kind::Identifier && variant_wf(x.variant),
        Stmt::Block(x) => stmts_wf(x.statements@),
        Stmt::Assignment(x) => x.name.kind == Kind::Identifier && expr_wf(x.value),
        Stmt::Expression(x) => expr_wf(x.expression),
        _ => true,
    }
}

pub open spec fn stmts_wf(ss: Seq<Stmt>) -> bool
    decreases ss,
{
    if ss.len() == 0 {
        true
    } else {
        stmts_wf(ss.drop_last()) && stmt_wf(ss.last())
    }
}

/// A top-level declaration: a function whose body is a block, or a type alias.
pub open spec fn is_declaration(s: Stmt) -> bool {
    match s {
        Stmt::Function(x) => x.body is Block,
        Stmt::Type(_) => true,
        _ => false,
    }
}

proof fn lemma_expr_lowers_cleanly(e: Expr)
    requires
        expr_wf(e),
    ensures
        expr_errors(e) == Seq::<usize>::empty(),
    decreases e,
{
    match e {
        Expr::Logical(x) => {
            lemma_expr_lowers_cleanly(x.left);
            lemma_expr_lowers_cleanly(x.right);
            assert(expr_errors(e) =~= Seq::<usize>::empty());
        },
        Expr::Binary(x) => {
            lemma_expr_lowers_cleanly(x.left);
            lemma_expr_lowers_cleanly(x.right);
            assert(expr_errors(e) =~= Seq::<usize>::empty());
        },
        Expr::Unary(x) => {
            lemma_expr_lowers_cleanly(x.right);
        },
        Expr::Call(x) => {
            lemma_exprs_lower_cleanly(x.arguments@);
            lemma_expr_lowers_cleanly(x.callee);
            assert(expr_errors(e) =~= Seq::<usize>::empty());
        },
        Expr::Grouping(x) => {
            lemma_expr_lowers_cleanly(x.expression);
        },
        _ => {},
    }
}

proof fn lemma_exprs_lower_cleanly(es: Seq<Expr>)
    requires
        exprs_wf(es),
    ensures
        exprs_errors(es) == Seq::<usize>::empty(),
    decreases es,
{
    if es.len() > 0 {
        lemma_exprs_lower_cleanly(es.drop_last());
        lemma_expr_lowers_cleanly(es.last());
        assert(exprs_errors(es) =~= Seq::<usize>::empty());
    }
}

proof fn lemma_stmt_lowers_cleanly(s: Stmt)
    requires
        stmt_wf(s),
    ensures
        stmt_errors(s) == Seq::<usize>::empty(),
    decreases s,
{
    match s {
        Stmt::If(x) => {
            lemma_expr_lowers_cleanly(x.condition);
            lemma_stmt_lowers_cleanly(x.then_branch);
            match x.else_branch {
                Some(b) => lemma_stmt_lowers_cleanly(b),
                None => {},
            }
            assert(stmt_errors(s) =~= Seq::<usize>::empty());
        },
        Stmt::Function(x) => lemma_stmt_lowers_cleanly(x.body),
        Stmt::Return(x) => match x.value {
            Some(e) => lemma_expr_lowers_cleanly(e),
            None => {},
        },
        Stmt::Loop(x) => lemma_stmt_lowers_cleanly(x.body),
        Stmt::Let(x) => match x.initializer {
            Some(e) => lemma_expr_lowers_cleanly(e),
            None => {},
        },
        Stmt::Block(x) => lemma_stmts_lower_cleanly(x.statements@),
        Stmt::Assignment(x) => lemma_expr_lowers_cleanly(x.value),
        Stmt::Expression(x) => lemma_expr_lowers_cleanly(x.expression),
        _ => {},
    }
}

/// A syntax tree that the parser built lowers without diagnostics: every
/// operator the parser places in a node is one that the node kind lowers.
pub proof fn lemma_stmts_lower_cleanly(ss: Seq<Stmt>)
    requires
        stmts_wf(ss),
    ensures
        stmts_errors(ss) == Seq::<usize>::empty(),
    decreases ss,
{
    if ss.len() > 0 {
        lemma_stmts_lower_cleanly(ss.drop_last());
        lemma_stmt_lowers_cleanly(ss.last());
        assert(stmts_errors(ss) =~= Seq::<usize>::empty());
    }
}

/// Builds a syntax tree from tokens by recursive descent, collecting every
/// syntax error and resuming at the next declaration after each.
#[derive(Debug)]
pub struct Parser {
    tokens: Vec<Token>,
    current: usize,
}

impl Parser {
    /// The tokens being parsed.
    pub closed spec fn tokens_view(&self) -> Seq<Token> {
        self.tokens@
    }

    /// The position of the next token to parse.
    pub closed spec fn cursor(&self) -> int {
        self.current as int
    }

    /// The tokens end with `EOF`, and the cursor is on one of them.
    pub closed spec fn wf(&self) -> bool {
        &&& self.tokens@.len() >= 1
        &&& self.tokens@.last().kind == Kind::EOF
        &&& self.current < self.tokens@.len()
    }

    /// Same tokens, and the cursor has not moved backwards.
    closed spec fn moved_on(&self, before: &Parser) -> bool {
        &&& self.wf()
        &&& self.tokens == before.tokens
        &&& self.current >= before.current
    }

    /// The cursor is on an `EOF` token: nothing is left to parse.
    pub closed spec fn at_end(&self) -> bool {
        self.tokens@[self.current as int].kind == Kind::EOF
    }

    pub fn new(tokens: Vec<Token>) -> (r: Self)
        requires
            tokens@.len() >= 1,
            tokens@.last().kind == Kind::EOF,
        ensures
            r.wf(),
            r.tokens_view() == tokens@,
            r.cursor() == 0,
    {
        Parser { tokens, current: 0 }
    }

    fn is_at_end(&self) -> (r: bool)
        requires
            self.wf(),
        ensures
            r == self.at_end(),
    {
        self.tokens[self.current].kind == Kind::EOF
    }

    fn peek(&self) -> (r: &Token)
        requires
            self.wf(),
        ensures
            *r == self.tokens@[self.current as int],
    {
        &self.tokens[self.current]
    }

    fn previous(&self) -> (r: &Token)
        requires
            self.wf(),
            self.current >= 1,
        ensures
            *r == self.tokens@[self.current - 1],
    {
        &self.tokens[self.current - 1]
    }

    fn advance(&mut self)
        requires
            old(self).wf(),
        ensures
            final(self).moved_on(old(self)),
            old(self).at_end() ==> final(self).current == old(self).current,
            !old(self).at_end() ==> final(self).current == old(self).current + 1,
    {
        if !self.is_at_end() {
            let n = self.tokens.len();
            assert(self.tokens@[n - 1].kind == Kind::EOF);
            self.current = self.current + 1;
        }
    }

    fn check(&self, kind: Kind) -> (r: bool)
        requires
            self.wf(),
        ensures
            r == (!self.at_end() && self.tokens@[self.current as int].kind == kind),
    {
        !self.is_at_end() && self.tokens[self.current].kind == kind
    }

    /// Consumes the next token if its kind is one of `kinds`.
    fn compare(&mut self, kinds: &[Kind]) -> (r: bool)
        requires
            old(self).wf(),
        ensures
            final(self).moved_on(old(self)),
            r ==> final(self).current == old(self).current + 1 && kinds@.contains(
                old(self).tokens@[old(self).current as int].kind,
            ),
            !r ==> final(self).current == old(self).current,
            !r ==> old(self).at_end() || !kinds@.contains(old(self).tokens@[old(self).current as int].kind),
    {
        let mut i: usize = 0;
        while i < kinds.len()
            invariant
                self.wf(),
                *self == *old(self),
                i <= kinds.len(),
                !self.at_end() ==> forall|j: int|
                    0 <= j < i ==> kinds@[j] != self.tokens@[self.current as int].kind,
            decreases kinds.len() - i,
        {
            if self.check(kinds[i]) {
                self.advance();
                assert(kinds@[i as int] == old(self).tokens@[old(self).current as int].kind);
                return true;
            }
            i = i + 1;
        }
        false
    }

    /// A diagnostic at `token`.
    fn error(&self, token: &Token, message: &str) -> (r: SyntaxError)
        ensures
            reports_at(r, *token),
            r.message@ == message@,
    {
        let location = if token.kind == Kind::EOF {
            String::from_str(" at end")
        } else {
            let mut l = String::from_str(" at '");
            l.append(token.lexeme.as_str());
            l.append("'");
            l
        };
        SyntaxError { line: token.line, location, message: String::from_str(message) }
    }

    /// A diagnostic at the next token.
    fn error_here(&self, message: &str) -> (r: SyntaxError)
        requires
            self.wf(),
        ensures
            located(r, self.tokens@, self.current as int, self.current as int),
            reports_at(r, self.tokens@[self.current as int]),
            r.message@ == message@,
    {
        let r = self.error(self.peek(), message);
        assert(reports_at(r, self.tokens@[self.current as int]));
        r
    }

    /// Consumes a token of the given kind, or reports `message` at the next token.
    fn consume(&mut self, kind: Kind, message: &str) -> (r: Result<Token, SyntaxError>)
        requires
            old(self).wf(),
        ensures
            final(self).moved_on(old(self)),
            match r {
                Ok(t) => {
                    &&& t == old(self).tokens@[old(self).current as int]
                    &&& t.kind == kind
                    &&& final(self).current == old(self).current + 1
                },
                Err(e) => {
                    &&& located(e, old(self).tokens@, old(self).current as int, old(self).current as int)
                    &&& reports_at(e, old(self).tokens@[old(self).current as int])
                    &&& e.message@ == message@
                    &&& final(self).current == old(self).current
                    &&& (old(self).at_end() || old(self).tokens@[old(self).current as int].kind != kind)
                },
            },
    {
        if self.check(kind) {
            let t = self.peek().duplicate();
            self.advance();
            Ok(t)
        } else {
            Err(self.error_here(message))
        }
    }

    /// Skips to the next `fn` or `type` keyword, or to the end; always moves
    /// past the token where the error was found.
    fn synchronize(&mut self)
        requires
            old(self).wf(),
        ensures
            final(self).moved_on(old(self)),
            !old(self).at_end() ==> final(self).current > old(self).current,
            old(self).at_end() ==> final(self).current == old(self).current,
            final(self).at_end() || final(self).tokens@[final(self).current as int].kind == Kind::Fn
                || final(self).tokens@[final(self).current as int].kind == Kind::Type,
            forall|k: int|
                old(self).current < k < final(self).current ==> (#[trigger] old(self).tokens@[k]).kind
                    != Kind::Fn && old(self).tokens@[k].kind != Kind::Type && old(self).tokens@[k].kind
                    != Kind::EOF,
            final(self).current == resume(old(self).tokens@, old(self).current as int),
    {
        self.advance();
        while !self.is_at_end()
            invariant
                self.moved_on(old(self)),
                !old(self).at_end() ==> self.current > old(self).current,
                old(self).at_end() ==> self.current == old(self).current,
                forall|k: int|
                    old(self).current < k < self.current ==> (#[trigger] self.tokens@[k]).kind
                        != Kind::Fn && self.tokens@[k].kind != Kind::Type && self.tokens@[k].kind
                        != Kind::EOF,
                skip_to_declaration(self.tokens@, self.current as int) == resume(
                    old(self).tokens@,
                    old(self).current as int,
                ),
            decreases self.tokens@.len() - self.current,
        {
            let k = self.peek().kind;
            if k == Kind::Fn || k == Kind::Type {
                return;
            }
            self.advance();
        }
    }
}

/// The text of a string literal between its quotes.
pub open spec fn unquoted(lexeme: Seq<char>) -> Seq<char> {
    if lexeme.len() >= 2 {
        lexeme.subrange(1, lexeme.len() - 1)
    } else {
        Seq::empty()
    }
}

/// The literal value that a token denotes.
pub open spec fn literal_of(t: Token, v: Value) -> bool {
    match v {
        Value::False => t.kind == Kind::False,
        Value::True => t.kind == Kind::True,
        Value::Number(n) => t.kind == Kind::Number && n@ == t.lexeme@,
        Value::String(s) => t.kind == Kind::String && s@ == unquoted(t.lexeme@),
    }
}

/// The token at `k` has the given kind.
pub open spec fn kind_at(ts: Seq<Token>, k: int, kind: Kind) -> bool {
    0 <= k < ts.len() && ts[k].kind == kind
}

/// The token at `k` is `t`.
pub open spec fn token_at(ts: Seq<Token>, k: int, t: Token) -> bool {
    0 <= k < ts.len() && ts[k] == t
}

/// Reading the expression back from the tokens, starting at `i`: where its
/// tokens end, or `None` where they do not spell it. Each node's operator,
/// name or literal must be the token at its place, and parentheses and
/// commas must stand where the node's form puts them; a call's arguments may
/// end with a comma.
pub open spec fn reads(e: Expr, ts: Seq<Token>, i: int) -> Option<int>
    decreases e,
{
    match e {
        Expr::Logical(x) => match reads(x.left, ts, i) {
            Some(m) => if token_at(ts, m, x.operator) {
                reads(x.right, ts, m + 1)
            } else {
                None
            },
            None => None,
        },
        Expr::Binary(x) => match reads(x.left, ts, i) {
            Some(m) => if token_at(ts, m, x.operator) {
                reads(x.right, ts, m + 1)
            } else {
                None
            },
            None => None,
        },
        Expr::Unary(x) => if token_at(ts, i, x.operator) {
            reads(x.right, ts, i + 1)
        } else {
            None
        },
        Expr::Call(x) => match reads(x.callee, ts, i) {
            Some(m) => if kind_at(ts, m, Kind::LeftParen) {
                match if x.arguments@.len() == 0 {
                    Some(m + 1)
                } else {
                    reads_list(x.arguments@, ts, m + 1)
                } {
                    Some(k) => {
                        let close = if x.arguments@.len() > 0 && kind_at(ts, k, Kind::Comma)
                            && kind_at(ts, k + 1, Kind::RightParen) {
                            k + 1
                        } else {
                            k
                        };
                        if kind_at(ts, close, Kind::RightParen) {
                            Some(close + 1)
                        } else {
                            None
                        }
                    },
                    None => None,
                }
            } else {
                None
            },
            None => None,
        },
        Expr::Grouping(x) => if kind_at(ts, i, Kind::LeftParen) {
            match reads(x.expression, ts, i + 1) {
                Some(k) => if kind_at(ts, k, Kind::RightParen) {
                    Some(k + 1)
                } else {
                    None
                },
                None => None,
            }
        } else {
            None
        },
        Expr::Variable(x) => if token_at(ts, i, x.name) {
            Some(i + 1)
        } else {
            None
        },
        Expr::Literal(x) => if 0 <= i < ts.len() && literal_of(ts[i], x.value) {
            Some(i + 1)
        } else {
            None
        },
    }
}

/// Reading comma-separated expressions back from the tokens, starting at `i`.
pub open spec fn reads_list(es: Seq<Expr>, ts: Seq<Token>, i: int) -> Option<int>
    decreases es,
{
    if es.len() == 0 {
        None
    } else if es.len() == 1 {
        reads(es[0], ts, i)
    } else {
        match reads_list(es.drop_last(), ts, i) {
            Some(c) => if kind_at(ts, c, Kind::Comma) {
                reads(es.last(), ts, c + 1)
            } else {
                None
            },
            None => None,
        }
    }
}

/// Reading a type annotation back from the tokens, starting at `i`: where
/// its tokens end, or `None` where they do not spell it.
pub open spec fn reads_variant(v: Variant, ts: Seq<Token>, i: int) -> Option<int>
    decreases v,
{
    match v {
        Variant::Literal(x) => if token_at(ts, i, x.name) {
            Some(i + 1)
        } else {
            None
        },
        Variant::Function(x) => if kind_at(ts, i, Kind::Fn) && kind_at(ts, i + 1, Kind::LeftParen) {
            match if x.parameters@.len() == 0 {
                Some(i + 2)
            } else {
                reads_variants(x.parameters@, ts, i + 2)
            } {
                Some(k) => {
                    let close = if x.parameters@.len() > 0 && kind_at(ts, k, Kind::Comma)
                        && kind_at(ts, k + 1, Kind::RightParen) {
                        k + 1
                    } else {
                        k
                    };
                    if kind_at(ts, close, Kind::RightParen) {
                        match x.output {
                            Some(o) => if kind_at(ts, close + 1, Kind::Colon) {
                                reads_variant(o, ts, close + 2)
                            } else {
                                None
                            },
                            None => Some(close + 1),
                        }
                    } else {
                        None
                    }
                },
                None => None,
            }
        } else {
            None
        },
    }
}

/// Reading comma-separated type annotations back from the tokens.
pub open spec fn reads_variants(vs: Seq<Variant>, ts: Seq<Token>, i: int) -> Option<int>
    decreases vs,
{
    if vs.len() == 0 {
        None
    } else if vs.len() == 1 {
        reads_variant(vs[0], ts, i)
    } else {
        match reads_variants(vs.drop_last(), ts, i) {
            Some(c) => if kind_at(ts, c, Kind::Comma) {
                reads_variant(vs.last(), ts, c + 1)
            } else {
                None
            },
            None => None,
        }
    }
}

/// Reading one `name: type` parameter back from the tokens.
pub open spec fn reads_parameter(p: (Token, Variant), ts: Seq<Token>, i: int) -> Option<int> {
    if token_at(ts, i, p.0) && kind_at(ts, i + 1, Kind::Colon) {
        reads_variant(p.1, ts, i + 2)
    } else {
        None
    }
}

/// Reading comma-separated parameters back from the tokens.
pub open spec fn reads_parameters(ps: Seq<(Token, Variant)>, ts: Seq<Token>, i: int) -> Option<int>
    decreases ps.len(),
{
    if ps.len() == 0 {
        None
    } else if ps.len() == 1 {
        reads_parameter(ps[0], ts, i)
    } else {
        match reads_parameters(ps.drop_last(), ts, i) {
            Some(c) => if kind_at(ts, c, Kind::Comma) {
                reads_parameter(ps.last(), ts, c + 1)
            } else {
                None
            },
            None => None,
        }
    }
}

/// `Some(k + 1)` where the token at `k` has the given kind.
pub open spec fn then_kind(r: Option<int>, ts: Seq<Token>, kind: Kind) -> Option<int> {
    match r {
        Some(k) => if kind_at(ts, k, kind) {
            Some(k + 1)
        } else {
            None
        },
        None => None,
    }
}

/// Reading a statement or declaration back from the tokens, starting at `i`
/// (at its keyword, if it has one): where its tokens end, or `None` where
/// they do not spell it.
pub open spec fn reads_stmt(s: Stmt, ts: Seq<Token>, i: int) -> Option<int>
    decreases s,
{
    match s {
        Stmt::If(x) => if kind_at(ts, i, Kind::If) {
            match reads(x.condition, ts, i + 1) {
                Some(a) => match reads_stmt(x.then_branch, ts, a) {
                    Some(b) => match x.else_branch {
                        Some(e) => if kind_at(ts, b, Kind::Else) {
                            reads_stmt(e, ts, b + 1)
                        } else {
                            None
                        },
                        None => Some(b),
                    },
                    None => None,
                },
                None => None,
            }
        } else {
            None
        },
        Stmt::Function(x) => if kind_at(ts, i, Kind::Fn) && token_at(ts, i + 1, x.name) && kind_at(
            ts,
            i + 2,
            Kind::LeftParen,
        ) {
            match then_kind(
                if x.parameters@.len() == 0 {
                    Some(i + 3)
                } else {
                    reads_parameters(x.parameters@, ts, i + 3)
                },
                ts,
                Kind::RightParen,
            ) {
                Some(k) => match match x.output {
                    Some(o) => if kind_at(ts, k, Kind::Colon) {
                        reads_variant(o, ts, k + 1)
                    } else {
                        None
                    },
                    None => Some(k),
                } {
                    Some(b) => reads_stmt(x.body, ts, b),
                    None => None,
                },
                None => None,
            }
        } else {
            None
        },
        Stmt::Return(x) => if kind_at(ts, i, Kind::Return) {
            then_kind(
                match x.value {
                    Some(e) => reads(e, ts, i + 1),
                    None => Some(i + 1),
                },
                ts,
                Kind::Semicolon,
            )
        } else {
            None
        },
        Stmt::Loop(x) => if kind_at(ts, i, Kind::Loop) {
            reads_stmt(x.body, ts, i + 1)
        } else {
            None
        },
        Stmt::Break(_) => if kind_at(ts, i, Kind::Break) {
            then_kind(Some(i + 1), ts, Kind::Semicolon)
        } else {
            None
        },
        Stmt::Continue(_) => if kind_at(ts, i, Kind::Continue) {
            then_kind(Some(i + 1), ts, Kind::Semicolon)
        } else {
            None
        },
        Stmt::Let(x) => if kind_at(ts, i, Kind::Let) && token_at(ts, i + 1, x.name) && kind_at(
            ts,
            i + 2,
            Kind::Colon,
        ) {
            match reads_variant(x.variant, ts, i + 3) {
                Some(k) => then_kind(
                    match x.initializer {
                        Some(e) => if kind_at(ts, k, Kind::Equal) {
                            reads(e, ts, k + 1)
                        } else {
                            None
                        },
                        None => Some(k),
                    },
                    ts,
                    Kind::Semicolon,
                ),
                None => None,
            }
        } else {
            None
        },
        Stmt::Type(x) => if kind_at(ts, i, Kind::Type) && token_at(ts, i + 1, x.name) && kind_at(
            ts,
            i + 2,
            Kind::Equal,
        ) {
            then_kind(reads_variant(x.variant, ts, i + 3), ts, Kind::Semicolon)
        } else {
            None
        },
        Stmt::Block(x) => if kind_at(ts, i, Kind::LeftBrace) {
            then_kind(reads_stmts(x.statements@, ts, i + 1), ts, Kind::RightBrace)
        } else {
            None
        },
        Stmt::Assignment(x) => if token_at(ts, i, x.name) && kind_at(ts, i + 1, Kind::Equal) {
            then_kind(reads(x.value, ts, i + 2), ts, Kind::Semicolon)
        } else {
            None
        },
        Stmt::Expression(x) => then_kind(reads(x.expression, ts, i), ts, Kind::Semicolon),
    }
}

/// Reading statements back from the tokens, one after another.
pub open spec fn reads_stmts(ss: Seq<Stmt>, ts: Seq<Token>, i: int) -> Option<int>
    decreases ss,
{
    if ss.len() == 0 {
        Some(i)
    } else {
        match reads_stmts(ss.drop_last(), ts, i) {
            Some(k) => reads_stmt(ss.last(), ts, k),
            None => None,
        }
    }
}

/// The outcome of a grammar rule at a position: where it stops on success,
/// or the token its error points at, the message, and where it stopped.
pub type Outcome = Result<int, (int, Seq<char>, int)>;

/// Expects a token of `kind` at `k`.
pub open spec fn expect(ts: Seq<Token>, k: int, kind: Kind, msg: Seq<char>) -> Outcome {
    if kind_at(ts, k, kind) {
        Ok(k + 1)
    } else {
        Err((k, msg, k))
    }
}

/// The token at `k` is the end of input.
pub open spec fn eof_at(ts: Seq<Token>, k: int) -> bool {
    0 <= k < ts.len() && ts[k].kind == Kind::EOF
}

/// expression := or
pub open spec fn p_expression(ts: Seq<Token>, i: int) -> Outcome
    decreases ts.len() - i, 60nat,
{
    p_bin(ts, i, 1)
}

/// The infix levels: `||` at 1 up to `*` and `/` at 6; level 7 is unary.
pub open spec fn p_bin(ts: Seq<Token>, i: int, lvl: nat) -> Outcome
    decreases ts.len() - i, if lvl < 7 {
        58 - lvl
    } else {
        51
    },
{
    if lvl >= 7 {
        p_unary(ts, i)
    } else {
        match p_bin(ts, i, lvl + 1) {
            Ok(k) => if i < k < ts.len() {
                p_bin_rest(ts, k, lvl)
            } else {
                Ok(k)
            },
            Err(e) => Err(e),
        }
    }
}

/// Further `op operand` pairs at one infix level, folded to the left.
pub open spec fn p_bin_rest(ts: Seq<Token>, k: int, lvl: nat) -> Outcome
    decreases ts.len() - k, 50nat,
{
    if 0 <= k < ts.len() && lvl < 7 && op_prec(ts[k].kind) == lvl {
        match p_bin(ts, k + 1, lvl + 1) {
            Ok(k2) => if k < k2 < ts.len() {
                p_bin_rest(ts, k2, lvl)
            } else {
                Ok(k2)
            },
            Err(e) => Err(e),
        }
    } else {
        Ok(k)
    }
}

/// unary := ( '!' | '-' ) unary | call
pub open spec fn p_unary(ts: Seq<Token>, i: int) -> Outcome
    decreases ts.len() - i, 50nat,
{
    if kind_at(ts, i, Kind::Bang) || kind_at(ts, i, Kind::Minus) {
        p_unary(ts, i + 1)
    } else {
        p_call(ts, i)
    }
}

/// call := primary ( '(' arguments? ')' )*
pub open spec fn p_call(ts: Seq<Token>, i: int) -> Outcome
    decreases ts.len() - i, 49nat,
{
    match p_primary(ts, i) {
        Ok(k) => if i < k < ts.len() {
            p_call_rest(ts, k)
        } else {
            Ok(k)
        },
        Err(e) => Err(e),
    }
}

pub open spec fn p_call_rest(ts: Seq<Token>, k: int) -> Outcome
    decreases ts.len() - k, 47nat,
{
    if kind_at(ts, k, Kind::LeftParen) {
        match if kind_at(ts, k + 1, Kind::RightParen) {
            Ok(k + 1)
        } else {
            p_args(ts, k + 1)
        } {
            Ok(c) => if kind_at(ts, c, Kind::RightParen) {
                if k < c + 1 < ts.len() {
                    p_call_rest(ts, c + 1)
                } else {
                    Ok(c + 1)
                }
            } else {
                Err((c, "Expect ')' after arguments."@, c))
            },
            Err(e) => Err(e),
        }
    } else {
        Ok(k)
    }
}

/// arguments := expression ( ',' expression )* ','?
pub open spec fn p_args(ts: Seq<Token>, i: int) -> Outcome
    decreases ts.len() - i, 61nat,
{
    match p_expression(ts, i) {
        Ok(k) => if i < k < ts.len() {
            p_args_rest(ts, k)
        } else {
            Ok(k)
        },
        Err(e) => Err(e),
    }
}

pub open spec fn p_args_rest(ts: Seq<Token>, k: int) -> Outcome
    decreases ts.len() - k, 46nat,
{
    if kind_at(ts, k, Kind::Comma) {
        if kind_at(ts, k + 1, Kind::RightParen) {
            Ok(k + 1)
        } else {
            match p_expression(ts, k + 1) {
                Ok(k2) => if k < k2 < ts.len() {
                    p_args_rest(ts, k2)
                } else {
                    Ok(k2)
                },
                Err(e) => Err(e),
            }
        }
    } else {
        Ok(k)
    }
}

/// primary := literal | identifier | '(' expression ')'
pub open spec fn p_primary(ts: Seq<Token>, i: int) -> Outcome
    decreases ts.len() - i, 48nat,
{
    if kind_at(ts, i, Kind::False) || kind_at(ts, i, Kind::True) || kind_at(ts, i, Kind::Number)
        || kind_at(ts, i, Kind::String) || kind_at(ts, i, Kind::Identifier) {
        Ok(i + 1)
    } else if kind_at(ts, i, Kind::LeftParen) {
        match p_expression(ts, i + 1) {
            Ok(k) => expect(ts, k, Kind::RightParen, "Expect ')' after expression."@),
            Err(e) => Err(e),
        }
    } else {
        Err((i, "Expect expression."@, i))
    }
}

/// variant := identifier | 'fn' function-variant
pub open spec fn p_variant(ts: Seq<Token>, i: int) -> Outcome
    decreases ts.len() - i, 30nat,
{
    if kind_at(ts, i, Kind::Identifier) {
        Ok(i + 1)
    } else if kind_at(ts, i, Kind::Fn) {
        p_fvariant(ts, i + 1)
    } else {
        Err((i, "Expect literal or function type."@, i))
    }
}

/// function-variant := '(' variants? ')' ( ':' variant )?
pub open spec fn p_fvariant(ts: Seq<Token>, i: int) -> Outcome
    decreases ts.len() - i, 29nat,
{
    if !kind_at(ts, i, Kind::LeftParen) {
        Err((i, "Expect '(' after function type."@, i))
    } else {
        match if kind_at(ts, i + 1, Kind::RightParen) {
            Ok(i + 1)
        } else {
            p_vlist(ts, i + 1)
        } {
            Ok(c) => if kind_at(ts, c, Kind::RightParen) {
                if kind_at(ts, c + 1, Kind::Colon) && c >= i {
                    p_variant(ts, c + 2)
                } else {
                    Ok(c + 1)
                }
            } else {
                Err((c, "Expect ')' after function type."@, c))
            },
            Err(e) => Err(e),
        }
    }
}

/// variants := variant ( ',' variant )* ','?
pub open spec fn p_vlist(ts: Seq<Token>, i: int) -> Outcome
    decreases ts.len() - i, 31nat,
{
    match p_variant(ts, i) {
        Ok(k) => if i < k < ts.len() {
            p_vlist_rest(ts, k)
        } else {
            Ok(k)
        },
        Err(e) => Err(e),
    }
}

pub open spec fn p_vlist_rest(ts: Seq<Token>, k: int) -> Outcome
    decreases ts.len() - k, 28nat,
{
    if kind_at(ts, k, Kind::Comma) {
        if kind_at(ts, k + 1, Kind::RightParen) {
            Ok(k + 1)
        } else {
            match p_variant(ts, k + 1) {
                Ok(k2) => if k < k2 < ts.len() {
                    p_vlist_rest(ts, k2)
                } else {
                    Ok(k2)
                },
                Err(e) => Err(e),
            }
        }
    } else {
        Ok(k)
    }
}

/// A name of a type annotation and the rest after it.
pub open spec fn p_typed_name(ts: Seq<Token>, i: int, sep: Kind, name_msg: Seq<char>, sep_msg: Seq<char>) -> Outcome
    decreases ts.len() - i, 32nat,
{
    if !kind_at(ts, i, Kind::Identifier) {
        Err((i, name_msg, i))
    } else if !kind_at(ts, i + 1, sep) {
        Err((i + 1, sep_msg, i + 1))
    } else {
        p_variant(ts, i + 2)
    }
}

/// parameters := name ':' variant ( ',' name ':' variant )*
pub open spec fn p_params(ts: Seq<Token>, i: int) -> Outcome
    decreases ts.len() - i, 34nat,
{
    match p_typed_name(ts, i, Kind::Colon, "Expect parameter name."@, "Expect ':' after parameter name."@) {
        Ok(k) => if i < k < ts.len() {
            p_params_rest(ts, k)
        } else {
            Ok(k)
        },
        Err(e) => Err(e),
    }
}

pub open spec fn p_params_rest(ts: Seq<Token>, k: int) -> Outcome
    decreases ts.len() - k, 33nat,
{
    if kind_at(ts, k, Kind::Comma) {
        match p_typed_name(ts, k + 1, Kind::Colon, "Expect parameter name."@, "Expect ':' after parameter name."@) {
            Ok(k2) => if k < k2 < ts.len() {
                p_params_rest(ts, k2)
            } else {
                Ok(k2)
            },
            Err(e) => Err(e),
        }
    } else {
        Ok(k)
    }
}

/// After `k`: `;` and the position after it.
pub open spec fn then_expect(o: Outcome, ts: Seq<Token>, kind: Kind, msg: Seq<char>) -> Outcome {
    match o {
        Ok(k) => expect(ts, k, kind, msg),
        Err(e) => Err(e),
    }
}

/// block := statement* '}', after the opening brace
pub open spec fn p_block(ts: Seq<Token>, i: int) -> Outcome
    decreases ts.len() - i, 90nat,
{
    if !(0 <= i < ts.len()) || ts[i].kind == Kind::EOF || ts[i].kind == Kind::RightBrace {
        expect(ts, i, Kind::RightBrace, "Expect '}' after block."@)
    } else {
        match p_statement(ts, i) {
            Ok(k) => if i < k < ts.len() {
                p_block(ts, k)
            } else {
                Ok(k)
            },
            Err(e) => Err(e),
        }
    }
}

/// statement := if | return | loop | break | continue | let | block | assignment
pub open spec fn p_statement(ts: Seq<Token>, i: int) -> Outcome
    decreases ts.len() - i, 89nat,
{
    if kind_at(ts, i, Kind::If) {
        p_if(ts, i + 1)
    } else if kind_at(ts, i, Kind::Return) {
        p_return(ts, i + 1)
    } else if kind_at(ts, i, Kind::Loop) {
        p_loop(ts, i + 1)
    } else if kind_at(ts, i, Kind::Break) {
        expect(ts, i + 1, Kind::Semicolon, "Expect ';' after 'break'."@)
    } else if kind_at(ts, i, Kind::Continue) {
        expect(ts, i + 1, Kind::Semicolon, "Expect ';' after 'continue'."@)
    } else if kind_at(ts, i, Kind::Let) {
        p_let(ts, i + 1)
    } else if kind_at(ts, i, Kind::LeftBrace) {
        p_block(ts, i + 1)
    } else {
        p_assign(ts, i)
    }
}

/// return := expression? ';', after `return`
pub open spec fn p_return(ts: Seq<Token>, i: int) -> Outcome
    decreases ts.len() - i, 88nat,
{
    then_expect(
        if kind_at(ts, i, Kind::Semicolon) {
            Ok(i)
        } else {
            p_expression(ts, i)
        },
        ts,
        Kind::Semicolon,
        "Expect ';' after return value."@,
    )
}

/// loop := block, after `loop`
pub open spec fn p_loop(ts: Seq<Token>, i: int) -> Outcome
    decreases ts.len() - i, 88nat,
{
    if kind_at(ts, i, Kind::LeftBrace) {
        p_block(ts, i + 1)
    } else {
        Err((i, "Expect '{' after 'loop'."@, i))
    }
}

/// type-alias := name '=' variant ';', after `type`
pub open spec fn p_type(ts: Seq<Token>, i: int) -> Outcome
    decreases ts.len() - i, 99nat,
{
    then_expect(
        p_typed_name(ts, i, Kind::Equal, "Expect type name."@, "Expect '=' after type name."@),
        ts,
        Kind::Semicolon,
        "Expect ';' after type."@,
    )
}

/// if := expression block ( 'else' block )?, after `if`
pub open spec fn p_if(ts: Seq<Token>, i: int) -> Outcome
    decreases ts.len() - i, 88nat,
{
    match p_expression(ts, i) {
        Ok(k) => if !kind_at(ts, k, Kind::LeftBrace) {
            Err((k, "Expect block after 'if'."@, k))
        } else if k < i {
            Ok(k)
        } else {
            match p_block(ts, k + 1) {
                Ok(b) => if kind_at(ts, b, Kind::Else) && b >= i {
                    if kind_at(ts, b + 1, Kind::LeftBrace) {
                        p_block(ts, b + 2)
                    } else {
                        Err((b + 1, "Expect block after 'else'."@, b + 1))
                    }
                } else {
                    Ok(b)
                },
                Err(e) => Err(e),
            }
        },
        Err(e) => Err(e),
    }
}

/// let := name ':' variant ( '=' expression )? ';', after `let`
pub open spec fn p_let(ts: Seq<Token>, i: int) -> Outcome
    decreases ts.len() - i, 88nat,
{
    match p_typed_name(ts, i, Kind::Colon, "Expect variable name."@, "Expect variable type."@) {
        Ok(k) => then_expect(
            if kind_at(ts, k, Kind::Equal) && k >= i {
                p_expression(ts, k + 1)
            } else {
                Ok(k)
            },
            ts,
            Kind::Semicolon,
            "Expect ';' after variable declaration."@,
        ),
        Err(e) => Err(e),
    }
}

/// assignment := expression ( '=' expression )? ';', where only a name may
/// stand left of `=`; the error about the target comes after the value.
pub open spec fn p_assign(ts: Seq<Token>, i: int) -> Outcome
    decreases ts.len() - i, 88nat,
{
    match p_expression(ts, i) {
        Ok(k) => if kind_at(ts, k, Kind::Equal) && k >= i {
            match p_expression(ts, k + 1) {
                Ok(k2) => if k == i + 1 && kind_at(ts, i, Kind::Identifier) {
                    expect(ts, k2, Kind::Semicolon, "Expect ';' after assignment."@)
                } else {
                    Err((k, "Invalid assignment target."@, k2))
                },
                Err(e) => Err(e),
            }
        } else {
            expect(ts, k, Kind::Semicolon, "Expect ';' after expression."@)
        },
        Err(e) => Err(e),
    }
}

/// declaration := 'fn' function | 'type' type-alias
pub open spec fn p_declaration(ts: Seq<Token>, i: int) -> Outcome
    decreases ts.len() - i, 100nat,
{
    if kind_at(ts, i, Kind::Fn) {
        p_function(ts, i + 1)
    } else if kind_at(ts, i, Kind::Type) {
        p_type(ts, i + 1)
    } else {
        Err((i, "Expect function or type declaration."@, i))
    }
}

/// function := name '(' parameters? ')' ( ':' variant )? block, after `fn`
pub open spec fn p_function(ts: Seq<Token>, i: int) -> Outcome
    decreases ts.len() - i, 99nat,
{
    if !kind_at(ts, i, Kind::Identifier) {
        Err((i, "Expect function name."@, i))
    } else if !kind_at(ts, i + 1, Kind::LeftParen) {
        Err((i + 1, "Expect '(' after function name."@, i + 1))
    } else {
        p_function_tail(
            ts,
            i,
            if kind_at(ts, i + 2, Kind::RightParen) {
                Ok(i + 2)
            } else {
                p_params(ts, i + 2)
            },
        )
    }
}

/// The rest of a function declaration after its parameters, given how the
/// parameters went.
pub open spec fn p_function_tail(ts: Seq<Token>, i: int, params: Outcome) -> Outcome
    decreases ts.len() - i, 98nat,
{
    match then_expect(params, ts, Kind::RightParen, "Expect ')' after parameters."@) {
        Ok(c) => match if kind_at(ts, c, Kind::Colon) && c >= i {
            p_variant(ts, c + 1)
        } else {
            Ok(c)
        } {
            Ok(b) => if kind_at(ts, b, Kind::LeftBrace) && b >= i {
                p_block(ts, b + 1)
            } else {
                Err((b, "Expect '{' before function body."@, b))
            },
            Err(e) => Err(e),
        },
        Err(e) => Err(e),
    }
}

/// Where panic-mode recovery resumes after an error that stopped at `stop`:
/// past that token, at the next `fn` or `type` keyword or at the end.
pub open spec fn resume(ts: Seq<Token>, stop: int) -> int {
    if eof_at(ts, stop) {
        stop
    } else {
        skip_to_declaration(ts, stop + 1)
    }
}

pub open spec fn skip_to_declaration(ts: Seq<Token>, k: int) -> int
    decreases ts.len() - k,
{
    if !(0 <= k < ts.len()) || ts[k].kind == Kind::EOF || ts[k].kind == Kind::Fn || ts[k].kind
        == Kind::Type {
        k
    } else {
        skip_to_declaration(ts, k + 1)
    }
}

/// The whole input from `i`: the spans of the declarations that parse, and
/// the errors, one for each declaration that fails, each followed by
/// recovery at the next `fn` or `type`.
pub open spec fn p_program(ts: Seq<Token>, i: int) -> (Seq<(int, int)>, Seq<(int, Seq<char>)>)
    decreases ts.len() - i,
{
    if !(0 <= i < ts.len()) || ts[i].kind == Kind::EOF {
        (Seq::empty(), Seq::empty())
    } else {
        match p_declaration(ts, i) {
            Ok(k) => if i < k < ts.len() {
                let rest = p_program(ts, k);
                (seq![(i, k)] + rest.0, rest.1)
            } else {
                (seq![(i, k)], Seq::empty())
            },
            Err((at, msg, stop)) => {
                let j = resume(ts, stop);
                if i < j < ts.len() {
                    let rest = p_program(ts, j);
                    (rest.0, seq![(at, msg)] + rest.1)
                } else {
                    (Seq::empty(), seq![(at, msg)])
                }
            },
        }
    }
}

proof fn lemma_bin_top(ts: Seq<Token>, i: int)
    ensures
        p_bin(ts, i, 7) == p_unary(ts, i),
{
}

proof fn lemma_reads_advance(e: Expr, ts: Seq<Token>, i: int)
    ensures
        reads(e, ts, i) is Some ==> reads(e, ts, i)->0 > i,
        reads(e, ts, i) is Some && reads(e, ts, i)->0 == i + 1 ==> e is Variable || e is Literal,
    decreases e,
{
    match e {
        Expr::Logical(x) => {
            lemma_reads_advance(x.left, ts, i);
            if reads(x.left, ts, i) is Some {
                lemma_reads_advance(x.right, ts, reads(x.left, ts, i)->0 + 1);
            }
        },
        Expr::Binary(x) => {
            lemma_reads_advance(x.left, ts, i);
            if reads(x.left, ts, i) is Some {
                lemma_reads_advance(x.right, ts, reads(x.left, ts, i)->0 + 1);
            }
        },
        Expr::Unary(x) => lemma_reads_advance(x.right, ts, i + 1),
        Expr::Call(x) => {
            lemma_reads_advance(x.callee, ts, i);
            if reads(x.callee, ts, i) is Some {
                lemma_list_advance(x.arguments@, ts, reads(x.callee, ts, i)->0 + 1);
            }
        },
        Expr::Grouping(x) => lemma_reads_advance(x.expression, ts, i + 1),
        _ => {},
    }
}

proof fn lemma_list_advance(es: Seq<Expr>, ts: Seq<Token>, j: int)
    ensures
        reads_list(es, ts, j) is Some ==> reads_list(es, ts, j)->0 > j,
    decreases es,
{
    if es.len() == 1 {
        lemma_reads_advance(es[0], ts, j);
    } else if es.len() > 1 {
        lemma_list_advance(es.drop_last(), ts, j);
        if reads_list(es.drop_last(), ts, j) is Some {
            lemma_reads_advance(es.last(), ts, reads_list(es.drop_last(), ts, j)->0 + 1);
        }
    }
}

/// Each diagnostic points at the token and carries the message that the
/// grammar gives for it.
pub open spec fn errors_follow(
    errors: Seq<SyntaxError>,
    failures: Seq<(int, Seq<char>)>,
    ts: Seq<Token>,
) -> bool {
    &&& errors.len() == failures.len()
    &&& forall|j: int| 0 <= j < failures.len() ==> #[trigger] failure_at(errors[j], failures[j], ts)
}

/// The diagnostic points at the token and carries the message of a failure.
pub open spec fn failure_at(e: SyntaxError, f: (int, Seq<char>), ts: Seq<Token>) -> bool {
    0 <= f.0 < ts.len() && reports_at(e, ts[f.0]) && e.message@ == f.1
}

proof fn lemma_errors_follow_push(
    errors: Seq<SyntaxError>,
    failures: Seq<(int, Seq<char>)>,
    ts: Seq<Token>,
    e: SyntaxError,
    f: (int, Seq<char>),
)
    requires
        errors_follow(errors, failures, ts),
        0 <= f.0 < ts.len(),
        reports_at(e, ts[f.0]),
        e.message@ == f.1,
    ensures
        errors_follow(errors.push(e), failures.push(f), ts),
{
    let e2 = errors.push(e);
    let f2 = failures.push(f);
    assert forall|j: int| 0 <= j < f2.len() implies #[trigger] failure_at(e2[j], f2[j], ts) by {
        if j < failures.len() {
            assert(e2[j] == errors[j]);
            assert(f2[j] == failures[j]);
        }
    }
}

/// A rule's result and cursor agree with the grammar's outcome.
pub open spec fn follows<T>(r: Result<T, SyntaxError>, o: Outcome, ts: Seq<Token>, after: int) -> bool {
    match o {
        Ok(k) => r is Ok && after == k,
        Err((at, msg, stop)) => {
            &&& r is Err
            &&& 0 <= at < ts.len()
            &&& reports_at(r->Err_0, ts[at])
            &&& r->Err_0.message@ == msg
            &&& after == stop
        },
    }
}

/// What an expression rule returns: on success a well-formed tree that reads
/// back from exactly the tokens the rule consumed, at least one; on failure a
/// diagnostic that points at one of the tokens from where the rule started
/// to where it stopped.
pub open spec fn parsed_expr(r: Result<Expr, SyntaxError>, tokens: Seq<Token>, before: int, after: int) -> bool {
    match r {
        Ok(e) => expr_wf(e) && after > before && reads(e, tokens, before) == Some(after),
        Err(e) => located(e, tokens, before, after),
    }
}

impl Parser {
    /// expression := or
    fn expression(&mut self) -> (r: Result<Expr, SyntaxError>)
        requires
            old(self).wf(),
        ensures
            final(self).moved_on(old(self)),
            follows(r, p_expression(old(self).tokens@, old(self).current as int), old(self).tokens@, final(self).current as int),
            parsed_expr(r, old(self).tokens@, old(self).current as int, final(self).current as int),
            r is Ok ==> prec(r->Ok_0) >= 1,
        decreases old(self).tokens@.len() - old(self).current, 60nat,
    {
        self.or_expression()
    }

    /// or := and ( '||' and )*
    fn or_expression(&mut self) -> (r: Result<Expr, SyntaxError>)
        requires
            old(self).wf(),
        ensures
            final(self).moved_on(old(self)),
            follows(r, p_bin(old(self).tokens@, old(self).current as int, 1), old(self).tokens@, final(self).current as int),
            parsed_expr(r, old(self).tokens@, old(self).current as int, final(self).current as int),
            r is Ok ==> prec(r->Ok_0) >= 1,
        decreases old(self).tokens@.len() - old(self).current, 59nat,
    {
        let mut expr = match self.and_expression() {
            Ok(e) => e,
            Err(e) => return Err(e),
        };
        loop
            invariant
                p_bin(self.tokens@, old(self).current as int, 1) == p_bin_rest(
                    self.tokens@,
                    self.current as int,
                    1,
                ),
                self.moved_on(old(self)),
                self.current > old(self).current,
                expr_wf(expr),
                reads(expr, self.tokens@, old(self).current as int) == Some(self.current as int),
                prec(expr) >= 1,
            decreases self.tokens@.len() - self.current,
        {
            if !self.compare(&[Kind::BarBar]) {
                return Ok(expr);
            }
            let ghost m = self.current - 1;
            let operator = self.previous().duplicate();
            let right = match self.and_expression() {
                Ok(e) => e,
                Err(e) => return Err(e),
            };
            expr = Expr::new_logical(expr, operator, right);
        }
    }

    /// and := equality ( '&&' equality )*
    fn and_expression(&mut self) -> (r: Result<Expr, SyntaxError>)
        requires
            old(self).wf(),
        ensures
            final(self).moved_on(old(self)),
            follows(r, p_bin(old(self).tokens@, old(self).current as int, 2), old(self).tokens@, final(self).current as int),
            parsed_expr(r, old(self).tokens@, old(self).current as int, final(self).current as int),
            r is Ok ==> prec(r->Ok_0) >= 2,
        decreases old(self).tokens@.len() - old(self).current, 58nat,
    {
        let mut expr = match self.equality_expression() {
            Ok(e) => e,
            Err(e) => return Err(e),
        };
        loop
            invariant
                p_bin(self.tokens@, old(self).current as int, 2) == p_bin_rest(
                    self.tokens@,
                    self.current as int,
                    2,
                ),
                self.moved_on(old(self)),
                self.current > old(self).current,
                expr_wf(expr),
                reads(expr, self.tokens@, old(self).current as int) == Some(self.current as int),
                prec(expr) >= 2,
            decreases self.tokens@.len() - self.current,
        {
            if !self.compare(&[Kind::AmpAmp]) {
                return Ok(expr);
            }
            let ghost m = self.current - 1;
            let operator = self.previous().duplicate();
            let right = match self.equality_expression() {
                Ok(e) => e,
                Err(e) => return Err(e),
            };
            expr = Expr::new_logical(expr, operator, right);
        }
    }

    /// equality := comparison ( ( '!=' | '==' ) comparison )*
    fn equality_expression(&mut self) -> (r: Result<Expr, SyntaxError>)
        requires
            old(self).wf(),
        ensures
            final(self).moved_on(old(self)),
            follows(r, p_bin(old(self).tokens@, old(self).current as int, 3), old(self).tokens@, final(self).current as int),
            parsed_expr(r, old(self).tokens@, old(self).current as int, final(self).current as int),
            r is Ok ==> prec(r->Ok_0) >= 3,
        decreases old(self).tokens@.len() - old(self).current, 57nat,
    {
        let mut expr = match self.comparison_expression() {
            Ok(e) => e,
            Err(e) => return Err(e),
        };
        loop
            invariant
                p_bin(self.tokens@, old(self).current as int, 3) == p_bin_rest(
                    self.tokens@,
                    self.current as int,
                    3,
                ),
                self.moved_on(old(self)),
                self.current > old(self).current,
                expr_wf(expr),
                reads(expr, self.tokens@, old(self).current as int) == Some(self.current as int),
                prec(expr) >= 3,
            decreases self.tokens@.len() - self.current,
        {
            if !self.compare(&[Kind::BangEqual, Kind::EqualEqual]) {
                return Ok(expr);
            }
            let ghost m = self.current - 1;
            let operator = self.previous().duplicate();
            let right = match self.comparison_expression() {
                Ok(e) => e,
                Err(e) => return Err(e),
            };
            expr = Expr::new_binary(expr, operator, right);
        }
    }

    /// comparison := term ( ( '>' | '>=' | '<' | '<=' ) term )*
    fn comparison_expression(&mut self) -> (r: Result<Expr, SyntaxError>)
        requires
            old(self).wf(),
        ensures
            final(self).moved_on(old(self)),
            follows(r, p_bin(old(self).tokens@, old(self).current as int, 4), old(self).tokens@, final(self).current as int),
            parsed_expr(r, old(self).tokens@, old(self).current as int, final(self).current as int),
            r is Ok ==> prec(r->Ok_0) >= 4,
        decreases old(self).tokens@.len() - old(self).current, 56nat,
    {
        let mut expr = match self.term_expression() {
            Ok(e) => e,
            Err(e) => return Err(e),
        };
        loop
            invariant
                p_bin(self.tokens@, old(self).current as int, 4) == p_bin_rest(
                    self.tokens@,
                    self.current as int,
                    4,
                ),
                self.moved_on(old(self)),
                self.current > old(self).current,
                expr_wf(expr),
                reads(expr, self.tokens@, old(self).current as int) == Some(self.current as int),
                prec(expr) >= 4,
            decreases self.tokens@.len() - self.current,
        {
            if !self.compare(&[Kind::Greater, Kind::GreaterEqual, Kind::Less, Kind::LessEqual]) {
                return Ok(expr);
            }
            let ghost m = self.current - 1;
            let operator = self.previous().duplicate();
            let right = match self.term_expression() {
                Ok(e) => e,
                Err(e) => return Err(e),
            };
            expr = Expr::new_binary(expr, operator, right);
        }
    }

    /// term := factor ( ( '-' | '+' ) factor )*
    fn term_expression(&mut self) -> (r: Result<Expr, SyntaxError>)
        requires
            old(self).wf(),
        ensures
            final(self).moved_on(old(self)),
            follows(r, p_bin(old(self).tokens@, old(self).current as int, 5), old(self).tokens@, final(self).current as int),
            parsed_expr(r, old(self).tokens@, old(self).current as int, final(self).current as int),
            r is Ok ==> prec(r->Ok_0) >= 5,
        decreases old(self).tokens@.len() - old(self).current, 55nat,
    {
        let mut expr = match self.factor_expression() {
            Ok(e) => e,
            Err(e) => return Err(e),
        };
        loop
            invariant
                p_bin(self.tokens@, old(self).current as int, 5) == p_bin_rest(
                    self.tokens@,
                    self.current as int,
                    5,
                ),
                self.moved_on(old(self)),
                self.current > old(self).current,
                expr_wf(expr),
                reads(expr, self.tokens@, old(self).current as int) == Some(self.current as int),
                prec(expr) >= 5,
            decreases self.tokens@.len() - self.current,
        {
            if !self.compare(&[Kind::Minus, Kind::Plus]) {
                return Ok(expr);
            }
            let ghost m = self.current - 1;
            let operator = self.previous().duplicate();
            let right = match self.factor_expression() {
                Ok(e) => e,
                Err(e) => return Err(e),
            };
            expr = Expr::new_binary(expr, operator, right);
        }
    }

    /// factor := unary ( ( '/' | '*' ) unary )*
    fn factor_expression(&mut self) -> (r: Result<Expr, SyntaxError>)
        requires
            old(self).wf(),
        ensures
            final(self).moved_on(old(self)),
            follows(r, p_bin(old(self).tokens@, old(self).current as int, 6), old(self).tokens@, final(self).current as int),
            parsed_expr(r, old(self).tokens@, old(self).current as int, final(self).current as int),
            r is Ok ==> prec(r->Ok_0) >= 6,
        decreases old(self).tokens@.len() - old(self).current, 54nat,
    {
        proof {
            lemma_bin_top(self.tokens@, self.current as int);
        }
        let mut expr = match self.unary_expression() {
            Ok(e) => e,
            Err(e) => return Err(e),
        };
        loop
            invariant
                p_bin(self.tokens@, old(self).current as int, 6) == p_bin_rest(
                    self.tokens@,
                    self.current as int,
                    6,
                ),
                self.moved_on(old(self)),
                self.current > old(self).current,
                expr_wf(expr),
                reads(expr, self.tokens@, old(self).current as int) == Some(self.current as int),
                prec(expr) >= 6,
            decreases self.tokens@.len() - self.current,
        {
            if !self.compare(&[Kind::Slash, Kind::Star]) {
                return Ok(expr);
            }
            let ghost m = self.current - 1;
            let operator = self.previous().duplicate();
            proof {
                lemma_bin_top(self.tokens@, self.current as int);
            }
            let right = match self.unary_expression() {
                Ok(e) => e,
                Err(e) => return Err(e),
            };
            expr = Expr::new_binary(expr, operator, right);
        }
    }

    /// unary := ( '!' | '-' ) unary | call
    fn unary_expression(&mut self) -> (r: Result<Expr, SyntaxError>)
        requires
            old(self).wf(),
        ensures
            final(self).moved_on(old(self)),
            follows(r, p_unary(old(self).tokens@, old(self).current as int), old(self).tokens@, final(self).current as int),
            parsed_expr(r, old(self).tokens@, old(self).current as int, final(self).current as int),
            r is Ok ==> prec(r->Ok_0) >= 7,
        decreases old(self).tokens@.len() - old(self).current, 53nat,
    {
        if self.compare(&[Kind::Bang, Kind::Minus]) {
            let operator = self.previous().duplicate();
            let right = match self.unary_expression() {
                Ok(e) => e,
                Err(e) => return Err(e),
            };
            Ok(Expr::new_unary(operator, right))
        } else {
            self.call_expression()
        }
    }

    /// call := primary ( '(' arguments? ')' )*, where the arguments may end with a comma
    fn call_expression(&mut self) -> (r: Result<Expr, SyntaxError>)
        requires
            old(self).wf(),
        ensures
            final(self).moved_on(old(self)),
            follows(r, p_call(old(self).tokens@, old(self).current as int), old(self).tokens@, final(self).current as int),
            parsed_expr(r, old(self).tokens@, old(self).current as int, final(self).current as int),
            r is Ok ==> prec(r->Ok_0) >= 8,
        decreases old(self).tokens@.len() - old(self).current, 52nat,
    {
        let mut expr = match self.primary_expression() {
            Ok(e) => e,
            Err(e) => return Err(e),
        };
        loop
            invariant
                p_call(self.tokens@, old(self).current as int) == p_call_rest(
                    self.tokens@,
                    self.current as int,
                ),
                self.moved_on(old(self)),
                self.current > old(self).current,
                expr_wf(expr),
                prec(expr) == 8,
                reads(expr, self.tokens@, old(self).current as int) == Some(self.current as int),
            decreases self.tokens@.len() - self.current,
        {
            if !self.compare(&[Kind::LeftParen]) {
                return Ok(expr);
            }
            let arguments = if !self.check(Kind::RightParen) {
                match self.arguments() {
                    Ok(a) => a,
                    Err(e) => return Err(e),
                }
            } else {
                Vec::new()
            };
            assert(exprs_wf(Seq::<Expr>::empty()));
            match self.consume(Kind::RightParen, "Expect ')' after arguments.") {
                Ok(_) => {},
                Err(e) => return Err(e),
            }
            expr = Expr::new_call(expr, arguments);
        }
    }

    /// arguments := expression ( ',' expression )* ','?, up to the closing parenthesis
    fn arguments(&mut self) -> (r: Result<Vec<Expr>, SyntaxError>)
        requires
            old(self).wf(),
        ensures
            final(self).moved_on(old(self)),
            follows(r, p_args(old(self).tokens@, old(self).current as int), old(self).tokens@, final(self).current as int),
            match r {
                Ok(args) => {
                    &&& args@.len() >= 1
                    &&& exprs_wf(args@)
                    &&& match reads_list(args@, old(self).tokens@, old(self).current as int) {
                        Some(k) => final(self).current == if kind_at(old(self).tokens@, k, Kind::Comma)
                            && kind_at(old(self).tokens@, k + 1, Kind::RightParen) {
                            k + 1
                        } else {
                            k
                        },
                        None => false,
                    }
                },
                Err(e) => located(e, old(self).tokens@, old(self).current as int, final(self).current as int),
            },
        decreases old(self).tokens@.len() - old(self).current, 61nat,
    {
        let mut arguments: Vec<Expr> = Vec::new();
        match self.expression() {
            Ok(e) => arguments.push(e),
            Err(e) => return Err(e),
        }
        assert(arguments@.drop_last() =~= Seq::<Expr>::empty());
        assert(exprs_wf(Seq::<Expr>::empty()));
        assert(exprs_wf(arguments@));
        let ghost mut end = self.current as int;
        loop
            invariant
                self.moved_on(old(self)),
                self.current > old(self).current,
                self.current == end,
                arguments@.len() >= 1,
                exprs_wf(arguments@),
                reads_list(arguments@, self.tokens@, old(self).current as int) == Some(end),
                p_args(self.tokens@, old(self).current as int) == p_args_rest(self.tokens@, end),
            decreases self.tokens@.len() - self.current,
        {
            if !self.compare(&[Kind::Comma]) {
                assert(!kind_at(self.tokens@, end, Kind::Comma));
                return Ok(arguments);
            }
            if self.check(Kind::RightParen) {
                return Ok(arguments);
            }
            let ghost before = arguments@;
            match self.expression() {
                Ok(e) => arguments.push(e),
                Err(e) => return Err(e),
            }
            assert(arguments@.drop_last() =~= before);
            proof {
                end = self.current as int;
            }
        }
    }

    /// primary := literal | identifier | '(' expression ')'
    fn primary_expression(&mut self) -> (r: Result<Expr, SyntaxError>)
        requires
            old(self).wf(),
        ensures
            final(self).moved_on(old(self)),
            follows(r, p_primary(old(self).tokens@, old(self).current as int), old(self).tokens@, final(self).current as int),
            parsed_expr(r, old(self).tokens@, old(self).current as int, final(self).current as int),
            r is Ok ==> prec(r->Ok_0) >= 8,
        decreases old(self).tokens@.len() - old(self).current, 51nat,
    {
        if self.compare(&[Kind::False, Kind::True, Kind::Number, Kind::String]) {
            let token = self.previous();
            let literal = match token.kind {
                Kind::False => Value::False,
                Kind::True => Value::True,
                Kind::Number => Value::Number(token.lexeme.clone()),
                Kind::String => {
                    let n = token.lexeme.as_str().unicode_len();
                    if n >= 2 {
                        Value::String(String::from_str(token.lexeme.as_str().substring_char(1, n - 1)))
                    } else {
                        Value::String(String::new())
                    }
                },
                _ => {
                    let e = self.error(token, "Parser bug, wrong literal");
                    assert(reports_at(e, self.tokens@[self.current - 1]));
                    assert(self.current - 1 >= old(self).current);
                    return Err(e);
                },
            };
            Ok(Expr::new_literal(literal))
        } else if self.compare(&[Kind::Identifier]) {
            Ok(Expr::new_variable(self.previous().duplicate()))
        } else if self.compare(&[Kind::LeftParen]) {
            let expr = match self.expression() {
                Ok(e) => e,
                Err(e) => return Err(e),
            };
            match self.consume(Kind::RightParen, "Expect ')' after expression.") {
                Ok(_) => {},
                Err(e) => return Err(e),
            }
            Ok(Expr::new_grouping(expr))
        } else {
            Err(self.error_here("Expect expression."))
        }
    }
}

/// What a type annotation rule returns: on success a well-formed annotation
/// that reads back from the tokens from `from` up to where the rule stopped,
/// after consuming at least one token; on failure a diagnostic that points at
/// one of the tokens the rule looked at.
pub open spec fn parsed_variant(
    r: Result<Variant, SyntaxError>,
    tokens: Seq<Token>,
    from: int,
    before: int,
    after: int,
) -> bool {
    match r {
        Ok(v) => variant_wf(v) && after > before && reads_variant(v, tokens, from) == Some(after),
        Err(e) => located(e, tokens, before, after),
    }
}

/// What a statement rule returns: on success a well-formed tree that reads
/// back from the tokens from `from` up to where the rule stopped, after
/// consuming at least one token; on failure a diagnostic that points at one
/// of the tokens the rule looked at.
pub open spec fn parsed_stmt(
    r: Result<Stmt, SyntaxError>,
    tokens: Seq<Token>,
    from: int,
    before: int,
    after: int,
) -> bool {
    match r {
        Ok(s) => stmt_wf(s) && after > before && reads_stmt(s, tokens, from) == Some(after),
        Err(e) => located(e, tokens, before, after),
    }
}

/// What a declaration rule returns: as a statement rule, and on success a
/// declaration.
pub open spec fn parsed_declaration(
    r: Result<Stmt, SyntaxError>,
    tokens: Seq<Token>,
    from: int,
    before: int,
    after: int,
) -> bool {
    &&& parsed_stmt(r, tokens, from, before, after)
    &&& (r is Ok ==> is_declaration(r->Ok_0))
}

impl Parser {
    /// variant := identifier | 'fn' function-variant
    fn variant(&mut self) -> (r: Result<Variant, SyntaxError>)
        requires
            old(self).wf(),
        ensures
            final(self).moved_on(old(self)),
            follows(r, p_variant(old(self).tokens@, old(self).current as int), old(self).tokens@, final(self).current as int),
            parsed_variant(
                r,
                old(self).tokens@,
                old(self).current as int,
                old(self).current as int,
                final(self).current as int,
            ),
        decreases old(self).tokens@.len() - old(self).current, 30nat,
    {
        if self.compare(&[Kind::Identifier]) {
            self.literal_variant()
        } else if self.compare(&[Kind::Fn]) {
            self.function_variant()
        } else {
            Err(self.error_here("Expect literal or function type."))
        }
    }

    /// The nominal type named by the token just consumed.
    fn literal_variant(&mut self) -> (r: Result<Variant, SyntaxError>)
        requires
            old(self).wf(),
            old(self).current >= 1,
        ensures
            *final(self) == *old(self),
            r == Ok::<Variant, SyntaxError>(
                Variant::Literal(
                    Box::new(crate::variant::Literal { name: old(self).tokens@[old(self).current - 1] }),
                ),
            ),
    {
        Ok(Variant::new_literal(self.previous().duplicate()))
    }

    /// function-variant := '(' variants? ')' ( ':' variant )?, where the variants may end with a comma
    fn function_variant(&mut self) -> (r: Result<Variant, SyntaxError>)
        requires
            old(self).wf(),
            old(self).current >= 1,
            old(self).tokens@[old(self).current - 1].kind == Kind::Fn,
        ensures
            final(self).moved_on(old(self)),
            follows(r, p_fvariant(old(self).tokens@, old(self).current as int), old(self).tokens@, final(self).current as int),
            parsed_variant(
                r,
                old(self).tokens@,
                old(self).current - 1,
                old(self).current as int,
                final(self).current as int,
            ),
        decreases old(self).tokens@.len() - old(self).current, 29nat,
    {
        match self.consume(Kind::LeftParen, "Expect '(' after function type.") {
            Ok(_) => {},
            Err(e) => return Err(e),
        }
        let parameters = if !self.check(Kind::RightParen) {
            match self.variant_list() {
                Ok(v) => v,
                Err(e) => return Err(e),
            }
        } else {
            Vec::new()
        };
        assert(variants_wf(Seq::<Variant>::empty()));
        match self.consume(Kind::RightParen, "Expect ')' after function type.") {
            Ok(_) => {},
            Err(e) => return Err(e),
        }
        let output = if self.compare(&[Kind::Colon]) {
            Some(match self.variant() {
                Ok(v) => v,
                Err(e) => return Err(e),
            })
        } else {
            None
        };
        Ok(Variant::new_function(parameters, output))
    }

    /// variants := variant ( ',' variant )* ','?, up to the closing parenthesis
    fn variant_list(&mut self) -> (r: Result<Vec<Variant>, SyntaxError>)
        requires
            old(self).wf(),
        ensures
            final(self).moved_on(old(self)),
            follows(r, p_vlist(old(self).tokens@, old(self).current as int), old(self).tokens@, final(self).current as int),
            match r {
                Ok(vs) => {
                    &&& vs@.len() >= 1
                    &&& variants_wf(vs@)
                    &&& match reads_variants(vs@, old(self).tokens@, old(self).current as int) {
                        Some(k) => final(self).current == if kind_at(old(self).tokens@, k, Kind::Comma)
                            && kind_at(old(self).tokens@, k + 1, Kind::RightParen) {
                            k + 1
                        } else {
                            k
                        },
                        None => false,
                    }
                },
                Err(e) => located(e, old(self).tokens@, old(self).current as int, final(self).current as int),
            },
        decreases old(self).tokens@.len() - old(self).current, 31nat,
    {
        let mut variants: Vec<Variant> = Vec::new();
        match self.variant() {
            Ok(v) => variants.push(v),
            Err(e) => return Err(e),
        }
        assert(variants@.drop_last() =~= Seq::<Variant>::empty());
        assert(variants_wf(Seq::<Variant>::empty()));
        assert(variants_wf(variants@));
        let ghost mut end = self.current as int;
        loop
            invariant
                self.moved_on(old(self)),
                self.current > old(self).current,
                self.current == end,
                variants@.len() >= 1,
                variants_wf(variants@),
                reads_variants(variants@, self.tokens@, old(self).current as int) == Some(end),
                p_vlist(self.tokens@, old(self).current as int) == p_vlist_rest(self.tokens@, end),
            decreases self.tokens@.len() - self.current,
        {
            if !self.compare(&[Kind::Comma]) {
                assert(!kind_at(self.tokens@, end, Kind::Comma));
                return Ok(variants);
            }
            if self.check(Kind::RightParen) {
                return Ok(variants);
            }
            let ghost before = variants@;
            match self.variant() {
                Ok(v) => variants.push(v),
                Err(e) => return Err(e),
            }
            assert(variants@.drop_last() =~= before);
            proof {
                end = self.current as int;
            }
        }
    }

    /// declaration := 'fn' function | 'type' type-alias
    fn declaration(&mut self) -> (r: Result<Stmt, SyntaxError>)
        requires
            old(self).wf(),
        ensures
            final(self).moved_on(old(self)),
            follows(r, p_declaration(old(self).tokens@, old(self).current as int), old(self).tokens@, final(self).current as int),
            parsed_declaration(
                r,
                old(self).tokens@,
                old(self).current as int,
                old(self).current as int,
                final(self).current as int,
            ),
        decreases old(self).tokens@.len() - old(self).current, 100nat,
    {
        if self.compare(&[Kind::Fn]) {
            self.function_declaration()
        } else if self.compare(&[Kind::Type]) {
            self.type_declaration()
        } else {
            Err(self.error_here("Expect function or type declaration."))
        }
    }

    /// function := identifier '(' parameters? ')' ( ':' variant )? block
    #[verifier::rlimit(60)]
    fn function_declaration(&mut self) -> (r: Result<Stmt, SyntaxError>)
        requires
            old(self).wf(),
            old(self).current >= 1,
            old(self).tokens@[old(self).current - 1].kind == Kind::Fn,
        ensures
            final(self).moved_on(old(self)),
            follows(r, p_function(old(self).tokens@, old(self).current as int), old(self).tokens@, final(self).current as int),
            parsed_declaration(
                r,
                old(self).tokens@,
                old(self).current - 1,
                old(self).current as int,
                final(self).current as int,
            ),
        decreases old(self).tokens@.len() - old(self).current, 99nat,
    {
        let name = match self.consume(Kind::Identifier, "Expect function name.") {
            Ok(v) => v,
            Err(e) => return Err(e),
        };
        match self.consume(Kind::LeftParen, "Expect '(' after function name.") {
            Ok(_) => {},
            Err(e) => return Err(e),
        }
        let mut parameters: Vec<(Token, Variant)> = Vec::new();
        if !self.check(Kind::RightParen) {
            let pname = match self.consume(Kind::Identifier, "Expect parameter name.") {
                Ok(v) => v,
                Err(e) => return Err(e),
            };
            match self.consume(Kind::Colon, "Expect ':' after parameter name.") {
                Ok(_) => {},
                Err(e) => return Err(e),
            }
            let v = match self.variant() {
                Ok(v) => v,
                Err(e) => return Err(e),
            };
            parameters.push((pname, v));
            assert(parameters@.len() == 1);
            loop
                invariant
                    self.moved_on(old(self)),
                    self.current > old(self).current,
                    parameters_wf(parameters@),
                    parameters@.len() >= 1,
                    reads_parameters(parameters@, self.tokens@, old(self).current + 2) == Some(
                        self.current as int,
                    ),
                    p_params(self.tokens@, old(self).current + 2) == p_params_rest(
                        self.tokens@,
                        self.current as int,
                    ),
                    p_function(self.tokens@, old(self).current as int) == p_function_tail(
                        self.tokens@,
                        old(self).current as int,
                        p_params_rest(self.tokens@, self.current as int),
                    ),
                ensures
                    !kind_at(self.tokens@, self.current as int, Kind::Comma),
                decreases self.tokens@.len() - self.current,
            {
                let ghost before = parameters@;
                let ghost at = self.current as int;
                if !self.compare(&[Kind::Comma]) {
                    break;
                }
                assert(p_params_rest(self.tokens@, at) == match p_typed_name(
                    self.tokens@,
                    at + 1,
                    Kind::Colon,
                    "Expect parameter name."@,
                    "Expect ':' after parameter name."@,
                ) {
                    Ok(k2) => if at < k2 < self.tokens@.len() {
                        p_params_rest(self.tokens@, k2)
                    } else {
                        Ok(k2)
                    },
                    Err(e) => Err(e),
                });
                let pname = match self.consume(Kind::Identifier, "Expect parameter name.") {
                    Ok(v) => v,
                    Err(e) => return Err(e),
                };
                match self.consume(Kind::Colon, "Expect ':' after parameter name.") {
                    Ok(_) => {},
                    Err(e) => return Err(e),
                }
                let v = match self.variant() {
                    Ok(v) => v,
                    Err(e) => return Err(e),
                };
                parameters.push((pname, v));
                assert(parameters@.drop_last() =~= before);
            }
        }
        match self.consume(Kind::RightParen, "Expect ')' after parameters.") {
            Ok(_) => {},
            Err(e) => return Err(e),
        }
        let output = if self.compare(&[Kind::Colon]) {
            Some(match self.variant() {
                Ok(v) => v,
                Err(e) => return Err(e),
            })
        } else {
            None
        };
        match self.consume(Kind::LeftBrace, "Expect '{' before function body.") {
            Ok(_) => {},
            Err(e) => return Err(e),
        }
        let body = match self.block_statement() {
            Ok(v) => v,
            Err(e) => return Err(e),
        };
        Ok(Stmt::new_function(name, parameters, output, body))
    }

    /// type-alias := identifier '=' variant ';'
    fn type_declaration(&mut self) -> (r: Result<Stmt, SyntaxError>)
        requires
            old(self).wf(),
            old(self).current >= 1,
            old(self).tokens@[old(self).current - 1].kind == Kind::Type,
        ensures
            final(self).moved_on(old(self)),
            follows(r, p_type(old(self).tokens@, old(self).current as int), old(self).tokens@, final(self).current as int),
            parsed_declaration(
                r,
                old(self).tokens@,
                old(self).current - 1,
                old(self).current as int,
                final(self).current as int,
            ),
        decreases old(self).tokens@.len() - old(self).current, 99nat,
    {
        let name = match self.consume(Kind::Identifier, "Expect type name.") {
            Ok(v) => v,
            Err(e) => return Err(e),
        };
        match self.consume(Kind::Equal, "Expect '=' after type name.") {
            Ok(_) => {},
            Err(e) => return Err(e),
        }
        let variant = match self.variant() {
            Ok(v) => v,
            Err(e) => return Err(e),
        };
        match self.consume(Kind::Semicolon, "Expect ';' after type.") {
            Ok(_) => {},
            Err(e) => return Err(e),
        }
        Ok(Stmt::new_type(name, variant))
    }

    /// statement := if | return | loop | break | continue | let | block | assignment
    fn statement(&mut self) -> (r: Result<Stmt, SyntaxError>)
        requires
            old(self).wf(),
        ensures
            final(self).moved_on(old(self)),
            follows(r, p_statement(old(self).tokens@, old(self).current as int), old(self).tokens@, final(self).current as int),
            parsed_stmt(
                r,
                old(self).tokens@,
                old(self).current as int,
                old(self).current as int,
                final(self).current as int,
            ),
        decreases old(self).tokens@.len() - old(self).current, 89nat,
    {
        if self.compare(&[Kind::If]) {
            self.if_statement()
        } else if self.compare(&[Kind::Return]) {
            self.return_statement()
        } else if self.compare(&[Kind::Loop]) {
            self.loop_statement()
        } else if self.compare(&[Kind::Break]) {
            self.break_statement()
        } else if self.compare(&[Kind::Continue]) {
            self.continue_statement()
        } else if self.compare(&[Kind::Let]) {
            self.let_statement()
        } else if self.compare(&[Kind::LeftBrace]) {
            self.block_statement()
        } else {
            self.assignment_statement()
        }
    }

    /// if := expression block ( 'else' block )?
    #[verifier::rlimit(60)]
    fn if_statement(&mut self) -> (r: Result<Stmt, SyntaxError>)
        requires
            old(self).wf(),
            old(self).current >= 1,
            old(self).tokens@[old(self).current - 1].kind == Kind::If,
        ensures
            final(self).moved_on(old(self)),
            follows(r, p_if(old(self).tokens@, old(self).current as int), old(self).tokens@, final(self).current as int),
            parsed_stmt(
                r,
                old(self).tokens@,
                old(self).current - 1,
                old(self).current as int,
                final(self).current as int,
            ),
        decreases old(self).tokens@.len() - old(self).current, 88nat,
    {
        let condition = match self.expression() {
            Ok(v) => v,
            Err(e) => return Err(e),
        };
        match self.consume(Kind::LeftBrace, "Expect block after 'if'.") {
            Ok(_) => {},
            Err(e) => return Err(e),
        }
        let then_branch = match self.block_statement() {
            Ok(v) => v,
            Err(e) => return Err(e),
        };
        let else_branch = if self.compare(&[Kind::Else]) {
            match self.consume(Kind::LeftBrace, "Expect block after 'else'.") {
                Ok(_) => {},
                Err(e) => return Err(e),
            }
            Some(match self.block_statement() {
                Ok(v) => v,
                Err(e) => return Err(e),
            })
        } else {
            None
        };
        Ok(Stmt::new_if(condition, then_branch, else_branch))
    }

    /// return := expression? ';'
    fn return_statement(&mut self) -> (r: Result<Stmt, SyntaxError>)
        requires
            old(self).wf(),
            old(self).current >= 1,
            old(self).tokens@[old(self).current - 1].kind == Kind::Return,
        ensures
            final(self).moved_on(old(self)),
            follows(r, p_return(old(self).tokens@, old(self).current as int), old(self).tokens@, final(self).current as int),
            parsed_stmt(
                r,
                old(self).tokens@,
                old(self).current - 1,
                old(self).current as int,
                final(self).current as int,
            ),
        decreases old(self).tokens@.len() - old(self).current, 88nat,
    {
        let value = if self.check(Kind::Semicolon) {
            None
        } else {
            Some(match self.expression() {
                Ok(v) => v,
                Err(e) => return Err(e),
            })
        };
        match self.consume(Kind::Semicolon, "Expect ';' after return value.") {
            Ok(_) => {},
            Err(e) => return Err(e),
        }
        Ok(Stmt::new_return(value))
    }

    /// loop := block
    fn loop_statement(&mut self) -> (r: Result<Stmt, SyntaxError>)
        requires
            old(self).wf(),
            old(self).current >= 1,
            old(self).tokens@[old(self).current - 1].kind == Kind::Loop,
        ensures
            final(self).moved_on(old(self)),
            follows(r, p_loop(old(self).tokens@, old(self).current as int), old(self).tokens@, final(self).current as int),
            parsed_stmt(
                r,
                old(self).tokens@,
                old(self).current - 1,
                old(self).current as int,
                final(self).current as int,
            ),
        decreases old(self).tokens@.len() - old(self).current, 88nat,
    {
        match self.consume(Kind::LeftBrace, "Expect '{' after 'loop'.") {
            Ok(_) => {},
            Err(e) => return Err(e),
        }
        let body = match self.block_statement() {
            Ok(v) => v,
            Err(e) => return Err(e),
        };
        Ok(Stmt::new_loop(body))
    }

    /// break := ';'
    fn break_statement(&mut self) -> (r: Result<Stmt, SyntaxError>)
        requires
            old(self).wf(),
            old(self).current >= 1,
            old(self).tokens@[old(self).current - 1].kind == Kind::Break,
        ensures
            final(self).moved_on(old(self)),
            follows(r, expect(old(self).tokens@, old(self).current as int, Kind::Semicolon, "Expect ';' after 'break'."@), old(self).tokens@, final(self).current as int),
            parsed_stmt(
                r,
                old(self).tokens@,
                old(self).current - 1,
                old(self).current as int,
                final(self).current as int,
            ),
        decreases old(self).tokens@.len() - old(self).current, 88nat,
    {
        match self.consume(Kind::Semicolon, "Expect ';' after 'break'.") {
            Ok(_) => {},
            Err(e) => return Err(e),
        }
        Ok(Stmt::new_break())
    }

    /// continue := ';'
    fn continue_statement(&mut self) -> (r: Result<Stmt, SyntaxError>)
        requires
            old(self).wf(),
            old(self).current >= 1,
            old(self).tokens@[old(self).current - 1].kind == Kind::Continue,
        ensures
            final(self).moved_on(old(self)),
            follows(r, expect(old(self).tokens@, old(self).current as int, Kind::Semicolon, "Expect ';' after 'continue'."@), old(self).tokens@, final(self).current as int),
            parsed_stmt(
                r,
                old(self).tokens@,
                old(self).current - 1,
                old(self).current as int,
                final(self).current as int,
            ),
        decreases old(self).tokens@.len() - old(self).current, 88nat,
    {
        match self.consume(Kind::Semicolon, "Expect ';' after 'continue'.") {
            Ok(_) => {},
            Err(e) => return Err(e),
        }
        Ok(Stmt::new_continue())
    }

    /// let := identifier ':' variant ( '=' expression )? ';'
    fn let_statement(&mut self) -> (r: Result<Stmt, SyntaxError>)
        requires
            old(self).wf(),
            old(self).current >= 1,
            old(self).tokens@[old(self).current - 1].kind == Kind::Let,
        ensures
            final(self).moved_on(old(self)),
            follows(r, p_let(old(self).tokens@, old(self).current as int), old(self).tokens@, final(self).current as int),
            parsed_stmt(
                r,
                old(self).tokens@,
                old(self).current - 1,
                old(self).current as int,
                final(self).current as int,
            ),
        decreases old(self).tokens@.len() - old(self).current, 88nat,
    {
        let name = match self.consume(Kind::Identifier, "Expect variable name.") {
            Ok(v) => v,
            Err(e) => return Err(e),
        };
        match self.consume(Kind::Colon, "Expect variable type.") {
            Ok(_) => {},
            Err(e) => return Err(e),
        }
        let variant = match self.variant() {
            Ok(v) => v,
            Err(e) => return Err(e),
        };
        let initializer = if self.compare(&[Kind::Equal]) {
            Some(match self.expression() {
                Ok(v) => v,
                Err(e) => return Err(e),
            })
        } else {
            None
        };
        match self.consume(Kind::Semicolon, "Expect ';' after variable declaration.") {
            Ok(_) => {},
            Err(e) => return Err(e),
        }
        Ok(Stmt::new_let(name, variant, initializer))
    }

    /// block := statement* '}', after the opening brace
    #[verifier::rlimit(60)]
    fn block_statement(&mut self) -> (r: Result<Stmt, SyntaxError>)
        requires
            old(self).wf(),
            old(self).current >= 1,
            old(self).tokens@[old(self).current - 1].kind == Kind::LeftBrace,
        ensures
            final(self).moved_on(old(self)),
            follows(r, p_block(old(self).tokens@, old(self).current as int), old(self).tokens@, final(self).current as int),
            parsed_stmt(
                r,
                old(self).tokens@,
                old(self).current - 1,
                old(self).current as int,
                final(self).current as int,
            ),
            r is Ok ==> r->Ok_0 is Block,
        decreases old(self).tokens@.len() - old(self).current, 90nat,
    {
        let mut statements: Vec<Stmt> = Vec::new();
        assert(stmts_wf(statements@));
        loop
            invariant
                self.moved_on(old(self)),
                stmts_wf(statements@),
                reads_stmts(statements@, self.tokens@, old(self).current as int) == Some(
                    self.current as int,
                ),
                p_block(self.tokens@, old(self).current as int) == p_block(
                    self.tokens@,
                    self.current as int,
                ),
                old(self).current >= 1,
                old(self).tokens@[old(self).current - 1].kind == Kind::LeftBrace,
            decreases self.tokens@.len() - self.current,
        {
            if self.is_at_end() || self.check(Kind::RightBrace) {
                let ghost end = self.current as int;
                match self.consume(Kind::RightBrace, "Expect '}' after block.") {
                    Ok(_) => {},
                    Err(e) => return Err(e),
                }
                assert(self.current == end + 1);
                let ghost ss = statements@;
                let block = Stmt::new_block(statements);
                assert(reads_stmts(ss, self.tokens@, old(self).current as int) == Some(
                    self.current - 1,
                ));
                assert(kind_at(self.tokens@, self.current - 1, Kind::RightBrace));
                assert(reads_stmt(block, self.tokens@, old(self).current - 1) == Some(
                    self.current as int,
                ));
                return Ok(block);
            }
            let ghost before = statements@;
            let s = match self.statement() {
                Ok(v) => v,
                Err(e) => return Err(e),
            };
            statements.push(s);
            assert(statements@.drop_last() =~= before);
        }
    }

    /// assignment := expression ( '=' expression )? ';', where only a name may stand left of '='
    #[verifier::rlimit(60)]
    fn assignment_statement(&mut self) -> (r: Result<Stmt, SyntaxError>)
        requires
            old(self).wf(),
        ensures
            final(self).moved_on(old(self)),
            follows(r, p_assign(old(self).tokens@, old(self).current as int), old(self).tokens@, final(self).current as int),
            parsed_stmt(
                r,
                old(self).tokens@,
                old(self).current as int,
                old(self).current as int,
                final(self).current as int,
            ),
        decreases old(self).tokens@.len() - old(self).current, 88nat,
    {
        let expr = match self.expression() {
            Ok(v) => v,
            Err(e) => return Err(e),
        };
        proof {
            lemma_reads_advance(expr, self.tokens@, old(self).current as int);
        }
        if self.compare(&[Kind::Equal]) {
            let equals = self.previous().duplicate();
            let ghost at = self.current - 1;
            let value = match self.expression() {
                Ok(v) => v,
                Err(e) => return Err(e),
            };
            match &expr {
                Expr::Variable(variable) => {
                    match self.consume(Kind::Semicolon, "Expect ';' after assignment.") {
                        Ok(_) => {},
                        Err(e) => return Err(e),
                    }
                    Ok(Stmt::new_assignment(variable.name.duplicate(), value))
                },
                _ => {
                    let e = self.error(&equals, "Invalid assignment target.");
                    assert(reports_at(e, self.tokens@[at]));
                    Err(e)
                },
            }
        } else {
            match self.consume(Kind::Semicolon, "Expect ';' after expression.") {
                Ok(_) => {},
                Err(e) => return Err(e),
            }
            Ok(Stmt::new_expression(expr))
        }
    }

    /// Parses every declaration up to the end of input. After an error it
    /// skips to the next `fn` or `type` keyword and goes on, so that every
    /// error in the input is reported.
    pub fn parse(&mut self) -> (r: (Vec<Stmt>, Vec<SyntaxError>))
        requires
            old(self).wf(),
        ensures
            final(self).wf(),
            final(self).at_end(),
            final(self).tokens_view() == old(self).tokens_view(),
            forall|i: int| 0 <= i < r.0@.len() ==> is_declaration(#[trigger] r.0@[i]),
            stmts_wf(r.0@),
            reported_in_order(r.1@, old(self).tokens_view()),
            old(self).at_end() ==> r.0@.len() == 0 && r.1@.len() == 0,
            !old(self).at_end() ==> r.0@.len() + r.1@.len() >= 1,
            r.1@.len() == 0 ==> reads_stmts(r.0@, old(self).tokens_view(), old(self).cursor())
                == Some(final(self).cursor()),
            0 <= final(self).cursor() < old(self).tokens_view().len(),
            old(self).tokens_view()[final(self).cursor()].kind == Kind::EOF,
            0 <= old(self).cursor() < old(self).tokens_view().len(),
            ({
                let (spans, failures) = p_program(old(self).tokens_view(), old(self).cursor());
                &&& r.0@.len() == spans.len()
                &&& forall|j: int|
                    0 <= j < spans.len() ==> reads_stmt(
                        #[trigger] r.0@[j],
                        old(self).tokens_view(),
                        spans[j].0,
                    ) == Some(spans[j].1)
                &&& errors_follow(r.1@, failures, old(self).tokens_view())
            }),
    {
        let mut statements: Vec<Stmt> = Vec::new();
        let mut errors: Vec<SyntaxError> = Vec::new();
        let ghost mut marks: Seq<int> = Seq::empty();
        let ghost mut ds: Seq<(int, int)> = Seq::empty();
        let ghost mut es: Seq<(int, Seq<char>)> = Seq::empty();
        assert(stmts_wf(statements@));
        while !self.is_at_end()
            invariant
                self.moved_on(old(self)),
                forall|i: int| 0 <= i < statements@.len() ==> is_declaration(#[trigger] statements@[i]),
                stmts_wf(statements@),
                marks.len() == errors@.len(),
                forall|i: int|
                    0 <= i < marks.len() ==> 0 <= #[trigger] marks[i] < self.tokens@.len()
                        && reports_at(errors@[i], self.tokens@[marks[i]]),
                forall|i: int, j: int| 0 <= i < j < marks.len() ==> #[trigger] marks[i] < #[trigger] marks[j],
                forall|i: int| 0 <= i < marks.len() ==> #[trigger] marks[i] < self.current || self.at_end(),
                old(self).at_end() ==> statements@.len() == 0 && errors@.len() == 0,
                old(self).at_end() ==> self.current == old(self).current,
                !old(self).at_end() && self.current > old(self).current ==> statements@.len() + errors@.len() >= 1,
                errors@.len() == 0 ==> reads_stmts(statements@, self.tokens@, old(self).current as int)
                    == Some(self.current as int),
                ds + p_program(self.tokens@, self.current as int).0 == p_program(
                    self.tokens@,
                    old(self).current as int,
                ).0,
                es + p_program(self.tokens@, self.current as int).1 == p_program(
                    self.tokens@,
                    old(self).current as int,
                ).1,
                statements@.len() == ds.len(),
                forall|j: int|
                    0 <= j < ds.len() ==> reads_stmt(#[trigger] statements@[j], self.tokens@, ds[j].0)
                        == Some(ds[j].1),
                errors@.len() == es.len(),
                errors_follow(errors@, es, old(self).tokens@),
            decreases self.tokens@.len() - self.current,
        {
            let ghost before = statements@;
            let ghost start = self.current as int;
            let ghost prog = p_program(self.tokens@, start);
            match self.declaration() {
                Ok(statement) => {
                    statements.push(statement);
                    assert(statements@.drop_last() =~= before);
                    proof {
                        let rest = p_program(self.tokens@, self.current as int);
                        assert(prog.0 == seq![(start, self.current as int)] + rest.0);
                        assert(ds.push((start, self.current as int)) + rest.0 =~= ds + prog.0);
                        ds = ds.push((start, self.current as int));
                        assert(statements@[statements@.len() - 1] == statement);

                    }
                },
                Err(error) => {
                    let ghost at = self.current as int;
                    let ghost k = choose|k: int|
                        0 <= start <= k <= at && k < self.tokens@.len() && reports_at(
                            error,
                            #[trigger] self.tokens@[k],
                        );
                    let ghost o = p_declaration(self.tokens@, start);
                    let ghost old_errors = errors@;
                    let ghost old_es = es;
                    self.synchronize();
                    errors.push(error);
                    proof {
                        marks = marks.push(k);
                        let f = (o->Err_0.0, o->Err_0.1);
                        let rest = p_program(self.tokens@, self.current as int);
                        assert(prog.1 == seq![f] + rest.1);
                        assert(es.push(f) + rest.1 =~= es + prog.1);
                        es = es.push(f);
                        lemma_errors_follow_push(old_errors, old_es, old(self).tokens@, error, f);
                        assert(errors@ == old_errors.push(error));
                    }
                },
            }
        }
        assert(reported_in_order(errors@, old(self).tokens@));
        proof {
            let rest = p_program(self.tokens@, self.current as int);
            assert(ds + rest.0 =~= ds);
            assert(es + rest.1 =~= es);
        }
        (statements, errors)
    }
}

} // verus!
