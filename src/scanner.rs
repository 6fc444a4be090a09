use vstd::prelude::*;

use crate::error::SyntaxError;
use crate::kind::Kind;
use crate::token::Token;

verus! {

/// The character at `i`, or `'\0'` past either end.
pub open spec fn char_at(s: Seq<char>, i: int) -> char {
    if 0 <= i < s.len() {
        s[i]
    } else {
        '\0'
    }
}

/// The number of line breaks in `s`.
pub open spec fn newlines(s: Seq<char>) -> nat
    decreases s.len(),
{
    if s.len() == 0 {
        0
    } else {
        newlines(s.drop_last()) + if s.last() == '\n' {
            1nat
        } else {
            0nat
        }
    }
}

pub open spec fn is_digit(c: char) -> bool {
    '0' <= c && c <= '9'
}

pub open spec fn is_alpha(c: char) -> bool {
    ('a' <= c && c <= 'z') || ('A' <= c && c <= 'Z') || c == '_'
}

pub open spec fn is_alnum(c: char) -> bool {
    is_alpha(c) || is_digit(c)
}

pub open spec fn all_digits(s: Seq<char>) -> bool {
    forall|i: int| 0 <= i < s.len() ==> is_digit(#[trigger] s[i])
}

/// A run of digits, optionally followed by a dot and a second run of digits.
pub open spec fn is_number_text(s: Seq<char>) -> bool {
    exists|k: int|
        1 <= k <= s.len() && all_digits(#[trigger] s.subrange(0, k)) && (k == s.len() || (s[k]
            == '.' && k + 1 < s.len() && all_digits(s.subrange(k + 1, s.len() as int))))
}

/// A quoted run of characters without a quote inside.
pub open spec fn is_string_text(s: Seq<char>) -> bool {
    &&& s.len() >= 2
    &&& s[0] == '"'
    &&& s.last() == '"'
    &&& forall|i: int| 0 < i < s.len() - 1 ==> #[trigger] s[i] != '"'
}

/// A letter or underscore followed by letters, digits and underscores.
pub open spec fn is_word(s: Seq<char>) -> bool {
    &&& s.len() >= 1
    &&& is_alpha(s[0])
    &&& forall|i: int| 0 <= i < s.len() ==> is_alnum(#[trigger] s[i])
}

/// The keyword that a word spells, or `Identifier` for any other word.
pub open spec fn keyword_kind(s: Seq<char>) -> Kind {
    if s == "if"@ {
        Kind::If
    } else if s == "else"@ {
        Kind::Else
    } else if s == "fn"@ {
        Kind::Fn
    } else if s == "return"@ {
        Kind::Return
    } else if s == "false"@ {
        Kind::False
    } else if s == "true"@ {
        Kind::True
    } else if s == "loop"@ {
        Kind::Loop
    } else if s == "break"@ {
        Kind::Break
    } else if s == "continue"@ {
        Kind::Continue
    } else if s == "let"@ {
        Kind::Let
    } else if s == "type"@ {
        Kind::Type
    } else {
        Kind::Identifier
    }
}

/// The fixed text of a punctuation or operator kind.
pub open spec fn symbol_text(kind: Kind) -> Option<Seq<char>> {
    match kind {
        Kind::LeftParen => Some(seq!['(']),
        Kind::RightParen => Some(seq![')']),
        Kind::LeftBrace => Some(seq!['{']),
        Kind::RightBrace => Some(seq!['}']),
        Kind::Comma => Some(seq![',']),
        Kind::Plus => Some(seq!['+']),
        Kind::Minus => Some(seq!['-']),
        Kind::Star => Some(seq!['*']),
        Kind::Slash => Some(seq!['/']),
        Kind::Question => Some(seq!['?']),
        Kind::Colon => Some(seq![':']),
        Kind::Semicolon => Some(seq![';']),
        Kind::Bang => Some(seq!['!']),
        Kind::BangEqual => Some(seq!['!', '=']),
        Kind::Equal => Some(seq!['=']),
        Kind::EqualEqual => Some(seq!['=', '=']),
        Kind::Less => Some(seq!['<']),
        Kind::LessEqual => Some(seq!['<', '=']),
        Kind::Greater => Some(seq!['>']),
        Kind::GreaterEqual => Some(seq!['>', '=']),
        Kind::AmpAmp => Some(seq!['&', '&']),
        Kind::BarBar => Some(seq!['|', '|']),
        _ => None,
    }
}

/// The lexeme has the shape that its kind calls for.
pub open spec fn token_fits(kind: Kind, lexeme: Seq<char>) -> bool {
    match kind {
        Kind::String => is_string_text(lexeme),
        Kind::Number => is_number_text(lexeme),
        Kind::EOF => lexeme.len() == 0,
        _ => match symbol_text(kind) {
            Some(text) => lexeme == text,
            None => is_word(lexeme) && keyword_kind(lexeme) == kind,
        },
    }
}

/// Tokens that a scan may have emitted before its end: well shaped, none of
/// them `EOF`, on lines from 1 to `line` in ascending order.
pub open spec fn tokens_ok(tokens: Seq<Token>, line: nat) -> bool {
    &&& forall|i: int|
        0 <= i < tokens.len() ==> {
            &&& token_fits(#[trigger] tokens[i].kind, tokens[i].lexeme@)
            &&& tokens[i].kind != Kind::EOF
            &&& 1 <= tokens[i].line <= line
        }
    &&& forall|i: int, j: int|
        0 <= i < j < tokens.len() ==> #[trigger] tokens[i].line <= #[trigger] tokens[j].line
}

/// The token's text is a piece of the source, character for character.
pub open spec fn verbatim(t: Token, source: Seq<char>) -> bool {
    exists|a: int, b: int| 0 <= a <= b <= source.len() && t.lexeme@ == source.subrange(a, b)
}

/// Every token but a terminator is verbatim source text.
pub open spec fn tokens_from(tokens: Seq<Token>, source: Seq<char>) -> bool {
    forall|i: int|
        0 <= i < tokens.len() && (#[trigger] tokens[i]).kind != Kind::Semicolon ==> verbatim(
            tokens[i],
            source,
        )
}

pub open spec fn is_unterminated(e: SyntaxError) -> bool {
    e.message@ == "Unterminated string."@
}

/// A diagnostic that the scanner may report.
pub open spec fn scan_error_ok(e: SyntaxError, line: nat) -> bool {
    &&& e.location@.len() == 0
    &&& e.message@ == "Unexpected character."@ || e.message@ == "Unterminated string."@
    &&& 1 <= e.line <= line
}

/// Scanner diagnostics: an unterminated string is reported at most once, and
/// only as the last diagnostic of a scan that reached the end of the source.
pub open spec fn errors_ok(errors: Seq<SyntaxError>, line: nat, at_end: bool) -> bool {
    &&& forall|i: int| 0 <= i < errors.len() ==> scan_error_ok(#[trigger] errors[i], line)
    &&& forall|i: int|
        0 <= i < errors.len() && is_unterminated(#[trigger] errors[i]) ==> i == errors.len() - 1
            && at_end
}

proof fn lemma_newlines_step(s: Seq<char>, i: int)
    requires
        0 <= i < s.len(),
    ensures
        newlines(s.subrange(0, i + 1)) == newlines(s.subrange(0, i)) + if s[i] == '\n' {
            1nat
        } else {
            0nat
        },
{
    assert(s.subrange(0, i + 1).drop_last() =~= s.subrange(0, i));
}

proof fn lemma_newlines_bound(s: Seq<char>)
    ensures
        newlines(s) <= s.len(),
    decreases s.len(),
{
    if s.len() > 0 {
        lemma_newlines_bound(s.drop_last());
    }
}

proof fn lemma_tokens_push(ts: Seq<Token>, t: Token, line: nat)
    requires
        tokens_ok(ts, line),
        token_fits(t.kind, t.lexeme@),
        t.kind != Kind::EOF,
        1 <= t.line == line,
    ensures
        tokens_ok(ts.push(t), line),
{
    let ts2 = ts.push(t);
    assert forall|i: int| 0 <= i < ts2.len() implies {
        &&& token_fits(#[trigger] ts2[i].kind, ts2[i].lexeme@)
        &&& ts2[i].kind != Kind::EOF
        &&& 1 <= ts2[i].line <= line
    } by {
        if i < ts.len() {
            assert(ts2[i] == ts[i]);
        }
    }
    assert forall|i: int, j: int| 0 <= i < j < ts2.len() implies #[trigger] ts2[i].line
        <= #[trigger] ts2[j].line by {
        if j < ts.len() {
            assert(ts2[i] == ts[i] && ts2[j] == ts[j]);
        } else {
            assert(ts2[i] == ts[i]);
            assert(ts[i].kind != Kind::EOF);
        }
    }
}

/// At a line break the last token emitted calls for a statement terminator:
/// there is one, and it is not `{`, `}` or `;`.
pub open spec fn wants_terminator(tokens: Seq<Token>) -> bool {
    &&& tokens.len() > 0
    &&& tokens.last().kind != Kind::LeftBrace
    &&& tokens.last().kind != Kind::RightBrace
    &&& tokens.last().kind != Kind::Semicolon
}

/// `after` is `before` with exactly one synthetic `;` on `line` appended
/// where `before` calls for a terminator, and `before` unchanged otherwise.
pub open spec fn terminated(before: Seq<Token>, after: Seq<Token>, line: nat) -> bool {
    if wants_terminator(before) {
        &&& after.len() == before.len() + 1
        &&& after.drop_last() == before
        &&& after.last().kind == Kind::Semicolon
        &&& after.last().lexeme@ == seq![';']
        &&& after.last().line == line
    } else {
        after == before
    }
}

/// The first position from `i` on that holds a quote, or the end.
pub open spec fn quote_end(s: Seq<char>, i: int) -> int
    decreases s.len() - i,
{
    if i < 0 || i >= s.len() || s[i] == '"' {
        if i < 0 { 0 } else { i }
    } else {
        quote_end(s, i + 1)
    }
}

/// The first position from `i` on that holds a line break, or the end.
pub open spec fn line_end(s: Seq<char>, i: int) -> int
    decreases s.len() - i,
{
    if i < 0 || i >= s.len() || s[i] == '\n' {
        if i < 0 { 0 } else { i }
    } else {
        line_end(s, i + 1)
    }
}

/// The first position from `i` on that holds no digit, or the end.
pub open spec fn digits_end(s: Seq<char>, i: int) -> int
    decreases s.len() - i,
{
    if i < 0 || i >= s.len() || !is_digit(s[i]) {
        if i < 0 { 0 } else { i }
    } else {
        digits_end(s, i + 1)
    }
}

/// The first position from `i` on that holds neither a letter, a digit nor
/// an underscore, or the end.
pub open spec fn word_end(s: Seq<char>, i: int) -> int
    decreases s.len() - i,
{
    if i < 0 || i >= s.len() || !is_alnum(s[i]) {
        if i < 0 { 0 } else { i }
    } else {
        word_end(s, i + 1)
    }
}

/// Where a number that starts at `i` ends: a run of digits, and a dot with
/// a second run where a digit follows the dot.
pub open spec fn number_end(s: Seq<char>, i: int) -> int {
    let d = digits_end(s, i + 1);
    if char_at(s, d) == '.' && is_digit(char_at(s, d + 1)) {
        digits_end(s, d + 1)
    } else {
        d
    }
}

/// What the text at a position is, lexically.
pub enum Lexeme {
    /// A token of the given kind.
    Token(Kind),
    /// A line break.
    Newline,
    /// A space, tab or carriage return.
    Blank,
    /// A comment, up to the end of its line.
    Comment,
    /// A character that starts no token.
    Unexpected,
    /// A string without its closing quote.
    Unterminated,
}

/// The lexeme that starts at `i` (inside the source), and where it ends.
/// Two-character operators are taken before one-character ones, and
/// numbers and words as far as they go.
pub open spec fn lex_at(s: Seq<char>, i: int) -> (Lexeme, int) {
    let c = s[i];
    let next = char_at(s, i + 1);
    if c == '(' {
        (Lexeme::Token(Kind::LeftParen), i + 1)
    } else if c == ')' {
        (Lexeme::Token(Kind::RightParen), i + 1)
    } else if c == '{' {
        (Lexeme::Token(Kind::LeftBrace), i + 1)
    } else if c == '}' {
        (Lexeme::Token(Kind::RightBrace), i + 1)
    } else if c == ',' {
        (Lexeme::Token(Kind::Comma), i + 1)
    } else if c == '+' {
        (Lexeme::Token(Kind::Plus), i + 1)
    } else if c == '-' {
        (Lexeme::Token(Kind::Minus), i + 1)
    } else if c == '*' {
        (Lexeme::Token(Kind::Star), i + 1)
    } else if c == '/' {
        if next == '/' {
            (Lexeme::Comment, line_end(s, i + 2))
        } else {
            (Lexeme::Token(Kind::Slash), i + 1)
        }
    } else if c == '?' {
        (Lexeme::Token(Kind::Question), i + 1)
    } else if c == ':' {
        (Lexeme::Token(Kind::Colon), i + 1)
    } else if c == ';' {
        (Lexeme::Token(Kind::Semicolon), i + 1)
    } else if c == '!' {
        if next == '=' {
            (Lexeme::Token(Kind::BangEqual), i + 2)
        } else {
            (Lexeme::Token(Kind::Bang), i + 1)
        }
    } else if c == '=' {
        if next == '=' {
            (Lexeme::Token(Kind::EqualEqual), i + 2)
        } else {
            (Lexeme::Token(Kind::Equal), i + 1)
        }
    } else if c == '<' {
        if next == '=' {
            (Lexeme::Token(Kind::LessEqual), i + 2)
        } else {
            (Lexeme::Token(Kind::Less), i + 1)
        }
    } else if c == '>' {
        if next == '=' {
            (Lexeme::Token(Kind::GreaterEqual), i + 2)
        } else {
            (Lexeme::Token(Kind::Greater), i + 1)
        }
    } else if c == '&' && next == '&' {
        (Lexeme::Token(Kind::AmpAmp), i + 2)
    } else if c == '|' && next == '|' {
        (Lexeme::Token(Kind::BarBar), i + 2)
    } else if c == '\n' {
        (Lexeme::Newline, i + 1)
    } else if c == ' ' || c == '\r' || c == '\t' {
        (Lexeme::Blank, i + 1)
    } else if c == '"' {
        let q = quote_end(s, i + 1);
        if q < s.len() {
            (Lexeme::Token(Kind::String), q + 1)
        } else {
            (Lexeme::Unterminated, s.len() as int)
        }
    } else if is_digit(c) {
        (Lexeme::Token(Kind::Number), number_end(s, i))
    } else if is_alpha(c) {
        let w = word_end(s, i + 1);
        (Lexeme::Token(keyword_kind(s.subrange(i, w))), w)
    } else {
        (Lexeme::Unexpected, i + 1)
    }
}

/// `after` is `before` with one token appended.
pub open spec fn pushed(before: Seq<Token>, after: Seq<Token>, kind: Kind, lexeme: Seq<char>, line: nat) -> bool {
    &&& after.len() == before.len() + 1
    &&& after.drop_last() == before
    &&& after.last().kind == kind
    &&& after.last().lexeme@ == lexeme
    &&& after.last().line == line
}

/// `after` is `before` with one diagnostic appended.
pub open spec fn reported(
    before: Seq<SyntaxError>,
    after: Seq<SyntaxError>,
    line: nat,
    message: Seq<char>,
) -> bool {
    &&& after.len() == before.len() + 1
    &&& after.drop_last() == before
    &&& after.last().line == line
    &&& after.last().location@.len() == 0
    &&& after.last().message@ == message
}

/// A token as plain values: kind, text and line.
pub open spec fn token_model(t: Token) -> (Kind, Seq<char>, nat) {
    (t.kind, t.lexeme@, t.line as nat)
}

pub open spec fn tokens_model(ts: Seq<Token>) -> Seq<(Kind, Seq<char>, nat)> {
    ts.map_values(|t: Token| token_model(t))
}

/// A scanner diagnostic as plain values: line and message.
pub open spec fn errors_model(es: Seq<SyntaxError>) -> Seq<(nat, Seq<char>)> {
    es.map_values(|e: SyntaxError| (e.line as nat, e.message@))
}

/// The line on which position `k` of the source lies.
pub open spec fn line_of(s: Seq<char>, k: int) -> nat {
    1 + newlines(s.subrange(0, k))
}

/// The tokens with a synthetic `;` on `line` appended where they call for a
/// terminator.
pub open spec fn terminate(ts: Seq<(Kind, Seq<char>, nat)>, line: nat) -> Seq<(Kind, Seq<char>, nat)> {
    if ts.len() > 0 && ts.last().0 != Kind::LeftBrace && ts.last().0 != Kind::RightBrace
        && ts.last().0 != Kind::Semicolon {
        ts.push((Kind::Semicolon, seq![';'], line))
    } else {
        ts
    }
}

/// Where a scan stands: the position, the depth of open parentheses, and
/// what it has emitted.
pub struct ScanState {
    pub pos: int,
    pub parens: int,
    pub tokens: Seq<(Kind, Seq<char>, nat)>,
    pub errors: Seq<(nat, Seq<char>)>,
}

/// One step of a scan: the lexeme at the position is read and recorded.
pub open spec fn step(s: Seq<char>, st: ScanState) -> ScanState {
    let (lexeme, end) = lex_at(s, st.pos);
    let line = line_of(s, st.pos);
    match lexeme {
        Lexeme::Token(kind) => ScanState {
            pos: end,
            parens: st.parens + if kind == Kind::LeftParen {
                1int
            } else if kind == Kind::RightParen {
                -1int
            } else {
                0int
            },
            tokens: st.tokens.push((kind, s.subrange(st.pos, end), line_of(s, end))),
            errors: st.errors,
        },
        Lexeme::Newline => ScanState {
            pos: end,
            parens: st.parens,
            tokens: if st.parens <= 0 {
                terminate(st.tokens, line)
            } else {
                st.tokens
            },
            errors: st.errors,
        },
        Lexeme::Blank | Lexeme::Comment => ScanState { pos: end, ..st },
        Lexeme::Unexpected => ScanState {
            pos: end,
            errors: st.errors.push((line, "Unexpected character."@)),
            ..st
        },
        Lexeme::Unterminated => ScanState {
            pos: end,
            errors: st.errors.push((line, "Unterminated string."@)),
            ..st
        },
    }
}

/// Steps from `st` until the end of the source.
pub open spec fn run(s: Seq<char>, st: ScanState) -> ScanState
    decreases s.len() - st.pos,
{
    if 0 <= st.pos < s.len() {
        let next = step(s, st);
        if st.pos < next.pos <= s.len() {
            run(s, next)
        } else {
            st
        }
    } else {
        st
    }
}

/// Where every scan starts.
pub open spec fn scan_start() -> ScanState {
    ScanState { pos: 0, parens: 0, tokens: Seq::empty(), errors: Seq::empty() }
}

/// The tokens a scan that ended in `st` hands over: a last terminator where
/// one is called for, then `EOF` on the last line.
pub open spec fn final_tokens(s: Seq<char>, st: ScanState) -> Seq<(Kind, Seq<char>, nat)> {
    let last = line_of(s, s.len() as int);
    terminate(st.tokens, last).push((Kind::EOF, Seq::empty(), last))
}

/// A line break ends the statement with exactly one synthetic `;` when no
/// parenthesis is open and the last token is not `{`, `}` or `;`; inside
/// parentheses, or after those tokens, it adds none.
pub proof fn lemma_newline_terminator(s: Seq<char>, st: ScanState)
    requires
        0 <= st.pos < s.len(),
        s[st.pos] == '\n',
    ensures
        step(s, st).pos == st.pos + 1,
        step(s, st).errors == st.errors,
        st.parens <= 0 && st.tokens.len() > 0 && st.tokens.last().0 != Kind::LeftBrace
            && st.tokens.last().0 != Kind::RightBrace && st.tokens.last().0 != Kind::Semicolon
            ==> step(s, st).tokens == st.tokens.push((Kind::Semicolon, seq![';'], line_of(s, st.pos))),
        !(st.parens <= 0 && st.tokens.len() > 0 && st.tokens.last().0 != Kind::LeftBrace
            && st.tokens.last().0 != Kind::RightBrace && st.tokens.last().0 != Kind::Semicolon)
            ==> step(s, st).tokens == st.tokens,
{
}

proof fn lemma_no_closing_quote(s: Seq<char>, i: int)
    requires
        0 <= i <= s.len(),
        forall|k: int| i <= k < s.len() ==> s[k] != '"',
    ensures
        quote_end(s, i) == s.len(),
    decreases s.len() - i,
{
    if i < s.len() {
        lemma_no_closing_quote(s, i + 1);
    }
}

/// A string that is never closed ends the scan with exactly one more
/// diagnostic, "Unterminated string.", on the line where the string begins,
/// and no more tokens.
pub proof fn lemma_unterminated_string(s: Seq<char>, st: ScanState)
    requires
        0 <= st.pos < s.len(),
        s[st.pos] == '"',
        forall|k: int| st.pos < k < s.len() ==> s[k] != '"',
    ensures
        run(s, st).errors == st.errors.push((line_of(s, st.pos), "Unterminated string."@)),
        run(s, st).tokens == st.tokens,
        run(s, st).pos == s.len(),
{
    lemma_no_closing_quote(s, st.pos + 1);
    let next = step(s, st);
    assert(next.pos == s.len());
    assert(run(s, next) == next);
}

/// What a complete scan hands back: the tokens end with exactly one `EOF`,
/// on the source's last line, and every diagnostic is a scanner diagnostic.
pub open spec fn scan_output_ok(
    tokens: Seq<Token>,
    errors: Seq<SyntaxError>,
    source: Seq<char>,
) -> bool {
    let last_line = 1 + newlines(source);
    &&& tokens.len() >= 1
    &&& tokens.last().kind == Kind::EOF
    &&& tokens.last().lexeme@.len() == 0
    &&& tokens.last().line == last_line
    &&& tokens_ok(tokens.drop_last(), last_line)
    &&& tokens_from(tokens, source)
    &&& errors_ok(errors, last_line, true)
}

fn is_digit_char(c: char) -> (r: bool)
    ensures
        r == is_digit(c),
{
    '0' <= c && c <= '9'
}

fn is_alpha_char(c: char) -> (r: bool)
    ensures
        r == is_alpha(c),
{
    ('a' <= c && c <= 'z') || ('A' <= c && c <= 'Z') || c == '_'
}

fn is_alnum_char(c: char) -> (r: bool)
    ensures
        r == is_alnum(c),
{
    is_alpha_char(c) || is_digit_char(c)
}

fn keyword_of(text: &String) -> (k: Kind)
    ensures
        k == keyword_kind(text@),
{
    if text.eq(&String::from_str("if")) {
        Kind::If
    } else if text.eq(&String::from_str("else")) {
        Kind::Else
    } else if text.eq(&String::from_str("fn")) {
        Kind::Fn
    } else if text.eq(&String::from_str("return")) {
        Kind::Return
    } else if text.eq(&String::from_str("false")) {
        Kind::False
    } else if text.eq(&String::from_str("true")) {
        Kind::True
    } else if text.eq(&String::from_str("loop")) {
        Kind::Loop
    } else if text.eq(&String::from_str("break")) {
        Kind::Break
    } else if text.eq(&String::from_str("continue")) {
        Kind::Continue
    } else if text.eq(&String::from_str("let")) {
        Kind::Let
    } else if text.eq(&String::from_str("type")) {
        Kind::Type
    } else {
        Kind::Identifier
    }
}

/// Turns source text into tokens, collecting every lexical error on the way.
#[derive(Debug)]
pub struct Scanner {
    source: String,
    length: usize,
    tokens: Vec<Token>,
    errors: Vec<SyntaxError>,
    start: usize,
    current: usize,
    line: usize,
    parens: isize,
}

impl Scanner {
    /// The text being scanned.
    pub closed spec fn source_view(&self) -> Seq<char> {
        self.source@
    }

    /// Where the scan stands, as plain values.
    pub closed spec fn state(&self) -> ScanState {
        ScanState {
            pos: self.current as int,
            parens: self.parens as int,
            tokens: tokens_model(self.tokens@),
            errors: errors_model(self.errors@),
        }
    }

    /// The lexeme at `before`'s start was read and recorded.
    closed spec fn lexeme_scanned(&self, before: &Scanner) -> bool {

        let src = before.source@;
        let at = before.start as int;
        let (lexeme, end) = lex_at(src, at);
        &&& self.current == end
        &&& match lexeme {
            Lexeme::Token(kind) => {
                &&& pushed(
                    before.tokens@,
                    self.tokens@,
                    kind,
                    src.subrange(at, end),
                    self.line as nat,
                )
                &&& self.errors == before.errors
                &&& self.parens == before.parens + if kind == Kind::LeftParen {
                    1int
                } else if kind == Kind::RightParen {
                    -1int
                } else {
                    0int
                }
            },
            Lexeme::Newline => {
                &&& self.errors == before.errors
                &&& self.parens == before.parens
                &&& before.parens <= 0 ==> terminated(
                    before.tokens@,
                    self.tokens@,
                    before.line as nat,
                )
                &&& before.parens > 0 ==> self.tokens == before.tokens
            },
            Lexeme::Blank | Lexeme::Comment => {
                &&& self.tokens == before.tokens
                &&& self.errors == before.errors
                &&& self.parens == before.parens
            },
            Lexeme::Unexpected => {
                &&& self.tokens == before.tokens
                &&& self.parens == before.parens
                &&& reported(
                    before.errors@,
                    self.errors@,
                    before.line as nat,
                    "Unexpected character."@,
                )
            },
            Lexeme::Unterminated => {
                &&& self.tokens == before.tokens
                &&& self.parens == before.parens
                &&& reported(
                    before.errors@,
                    self.errors@,
                    before.line as nat,
                    "Unterminated string."@,
                )
            },
        }
    
    }

    proof fn lemma_scanned_step(before: Scanner, after: Scanner)
        requires
            before.wf(),
            after.wf(),
            before.start == before.current,
            before.current < before.length,
            after.source == before.source,
            after.lexeme_scanned(&before),
        ensures
            after.state() == step(before.source@, before.state()),
    {
        let src = before.source@;
        let at = before.current as int;
        let (lexeme, end) = lex_at(src, at);
        let line = line_of(src, at);
        match lexeme {
            Lexeme::Token(kind) => {
                let t = (kind, src.subrange(at, end), line_of(src, end));
                assert forall|i: int| 0 <= i < before.tokens@.len() implies after.tokens@[i]
                    == before.tokens@[i] by {
                    assert(after.tokens@.drop_last()[i] == after.tokens@[i]);
                }
                assert(tokens_model(after.tokens@) =~= tokens_model(before.tokens@).push(t));
            },
            Lexeme::Newline => {
                if before.parens <= 0 {
                    if wants_terminator(before.tokens@) {
                        assert forall|i: int| 0 <= i < before.tokens@.len() implies after.tokens@[i]
                            == before.tokens@[i] by {
                            assert(after.tokens@.drop_last()[i] == after.tokens@[i]);
                        }
                        assert(tokens_model(after.tokens@) =~= terminate(
                            tokens_model(before.tokens@),
                            line,
                        ));
                    } else {
                        assert(tokens_model(after.tokens@) =~= terminate(
                            tokens_model(before.tokens@),
                            line,
                        ));
                    }
                }
            },
            Lexeme::Unexpected => {
                assert forall|i: int| 0 <= i < before.errors@.len() implies after.errors@[i]
                    == before.errors@[i] by {
                    assert(after.errors@.drop_last()[i] == after.errors@[i]);
                }
                assert(errors_model(after.errors@) =~= errors_model(before.errors@).push(
                    (line, "Unexpected character."@),
                ));
            },
            Lexeme::Unterminated => {
                assert forall|i: int| 0 <= i < before.errors@.len() implies after.errors@[i]
                    == before.errors@[i] by {
                    assert(after.errors@.drop_last()[i] == after.errors@[i]);
                }
                assert(errors_model(after.errors@) =~= errors_model(before.errors@).push(
                    (line, "Unterminated string."@),
                ));
            },
            _ => {},
        }
    }

    /// Everything but the line counter is consistent.
    closed spec fn frame_ok(&self) -> bool {
        &&& self.length == self.source@.len()
        &&& self.length < isize::MAX
        &&& self.start <= self.current <= self.length
        &&& -(self.current as int) <= self.parens <= self.current as int
        &&& 1 <= self.line
        &&& tokens_ok(self.tokens@, self.line as nat)
        &&& tokens_from(self.tokens@, self.source@)
        &&& errors_ok(self.errors@, self.line as nat, self.current == self.length)
    }

    closed spec fn line_ok(&self) -> bool {
        self.line == 1 + newlines(self.source@.subrange(0, self.current as int))
    }

    /// The scanner's invariant.
    pub closed spec fn wf(&self) -> bool {
        self.frame_ok() && self.line_ok()
    }

    pub fn new(source: &str) -> (r: Self)
        requires
            source@.len() < isize::MAX,
        ensures
            r.wf(),
            r.source_view() == source@,
            r.state() == scan_start(),
    {
        let s = String::from_str(source);
        let length = s.as_str().unicode_len();
        let r = Scanner {
            source: s,
            length,
            tokens: Vec::new(),
            errors: Vec::new(),
            start: 0,
            current: 0,
            line: 1,
            parens: 0,
        };
        assert(r.source@.subrange(0, 0) =~= Seq::<char>::empty());
        assert(tokens_model(r.tokens@) =~= Seq::empty());
        assert(errors_model(r.errors@) =~= Seq::empty());
        r
    }

    fn is_at_end(&self) -> (r: bool)
        requires
            self.frame_ok(),
        ensures
            r == (self.current >= self.length),
    {
        self.current >= self.length
    }

    fn peek(&self) -> (r: char)
        requires
            self.frame_ok(),
        ensures
            r == char_at(self.source@, self.current as int),
    {
        if self.current < self.length {
            self.source.as_str().get_char(self.current)
        } else {
            '\0'
        }
    }

    fn peek_next(&self) -> (r: char)
        requires
            self.frame_ok(),
        ensures
            r == char_at(self.source@, self.current + 1),
    {
        if self.current + 1 < self.length {
            self.source.as_str().get_char(self.current + 1)
        } else {
            '\0'
        }
    }

    fn advance(&mut self) -> (r: char)
        requires
            old(self).frame_ok(),
            old(self).current < old(self).length,
        ensures
            r == old(self).source@[old(self).current as int],
            *final(self) == (Scanner { current: (old(self).current + 1) as usize, ..*old(self) }),
    {
        let c = self.source.as_str().get_char(self.current);
        self.current = self.current + 1;
        c
    }
    /// Every field but the token list is as before.
    closed spec fn same_but_tokens(&self, other: &Scanner) -> bool {
        &&& self.source == other.source
        &&& self.length == other.length
        &&& self.errors == other.errors
        &&& self.start == other.start
        &&& self.current == other.current
        &&& self.line == other.line
        &&& self.parens == other.parens
    }

    fn add_token(&mut self, kind: Kind)
        requires
            old(self).frame_ok(),
            old(self).start < old(self).current,
            token_fits(kind, old(self).source@.subrange(old(self).start as int, old(self).current as int)),
            kind != Kind::EOF,
        ensures
            final(self).frame_ok(),
            final(self).same_but_tokens(old(self)),
            final(self).tokens@.len() == old(self).tokens@.len() + 1,
            final(self).tokens@.drop_last() == old(self).tokens@,
            final(self).tokens@.last().kind == kind,
            final(self).tokens@.last().line == old(self).line,
            final(self).tokens@.last().lexeme@ == old(self).source@.subrange(
                old(self).start as int,
                old(self).current as int,
            ),
    {
        let text = String::from_str(self.source.as_str().substring_char(self.start, self.current));
        let ghost t = Token { kind, lexeme: text, line: self.line };
        proof {
            lemma_tokens_push(self.tokens@, t, self.line as nat);
            assert(verbatim(t, self.source@));
        }
        self.tokens.push(Token { kind, lexeme: text, line: self.line });
        assert(self.tokens@.drop_last() =~= old(self).tokens@);
        assert forall|i: int|
            0 <= i < self.tokens@.len() && (#[trigger] self.tokens@[i]).kind
                != Kind::Semicolon implies verbatim(self.tokens@[i], self.source@) by {
            if i < old(self).tokens@.len() {
                assert(self.tokens@[i] == old(self).tokens@[i]);
            }
        }
    }

    fn add_error(&mut self, line: usize, message: &str)
        requires
            old(self).frame_ok(),
            1 <= line <= old(self).line,
            message@ == "Unexpected character."@ || message@ == "Unterminated string."@,
            message@ == "Unterminated string."@ ==> old(self).current == old(self).length,
            forall|i: int|
                0 <= i < old(self).errors@.len() ==> !is_unterminated(#[trigger] old(self).errors@[i]),
        ensures
            final(self).frame_ok(),
            final(self).errors@.len() == old(self).errors@.len() + 1,
            final(self).errors@.drop_last() == old(self).errors@,
            final(self).errors@.last().line == line,
            final(self).errors@.last().message@ == message@,
            final(self).errors@.last().location@.len() == 0,
            final(self).source == old(self).source,
            final(self).length == old(self).length,
            final(self).tokens == old(self).tokens,
            final(self).start == old(self).start,
            final(self).current == old(self).current,
            final(self).line == old(self).line,
            final(self).parens == old(self).parens,
    {
        proof {
            reveal_strlit("");
        }
        self.errors.push(
            SyntaxError { line, location: String::from_str(""), message: String::from_str(message) },
        );
        assert(self.errors@.drop_last() =~= old(self).errors@);
    }

    /// Ends the current statement with a synthetic `;`, unless nothing has
    /// been emitted yet or the last token is `{`, `}` or `;`.
    fn add_semicolon(&mut self)
        requires
            old(self).frame_ok(),
        ensures
            final(self).frame_ok(),
            final(self).same_but_tokens(old(self)),
            terminated(old(self).tokens@, final(self).tokens@, old(self).line as nat),
    {
        let n = self.tokens.len();
        if n > 0 {
            let k = self.tokens[n - 1].kind;
            if k != Kind::LeftBrace && k != Kind::RightBrace && k != Kind::Semicolon {
                proof {
                    reveal_strlit(";");
                }
                let t = Token { kind: Kind::Semicolon, lexeme: String::from_str(";"), line: self.line };
                assert(t.lexeme@ =~= seq![';']);
                proof {
                    lemma_tokens_push(self.tokens@, t, self.line as nat);
                }
                self.tokens.push(t);
                assert(self.tokens@.drop_last() =~= old(self).tokens@);
                assert forall|i: int|
                    0 <= i < self.tokens@.len() && (#[trigger] self.tokens@[i]).kind
                        != Kind::Semicolon implies verbatim(self.tokens@[i], self.source@) by {
                    assert(self.tokens@[i] == old(self).tokens@[i]);
                }
            }
        }
    }

    fn compare(&mut self, expected: char) -> (r: bool)
        requires
            old(self).frame_ok(),
        ensures
            r == (old(self).current < old(self).length && old(self).source@[old(self).current as int]
                == expected),
            r ==> *final(self) == (Scanner { current: (old(self).current + 1) as usize, ..*old(self) }),
            !r ==> *final(self) == *old(self),
    {
        if self.is_at_end() || self.peek() != expected {
            false
        } else {
            self.current = self.current + 1;
            true
        }
    }
}

impl Scanner {
    /// A step of the scan that keeps the source and the lexeme's start, and
    /// does not move backwards.
    closed spec fn step_ok(&self, before: &Scanner) -> bool {
        &&& self.wf()
        &&& self.source == before.source
        &&& self.length == before.length
        &&& self.start == before.start
        &&& self.current >= before.current
    }

    fn scan_comment(&mut self)
        requires
            old(self).wf(),
        ensures
            final(self).step_ok(old(self)),
            final(self).current == line_end(old(self).source@, old(self).current as int),
            final(self).tokens == old(self).tokens,
            final(self).errors == old(self).errors,
            final(self).parens == old(self).parens,
    {
        while !self.is_at_end() && self.peek() != '\n'
            invariant
                self.step_ok(old(self)),
                line_end(self.source@, self.current as int) == line_end(
                    self.source@,
                    old(self).current as int,
                ),
                self.tokens == old(self).tokens,
                self.errors == old(self).errors,
                self.parens == old(self).parens,
            decreases self.length - self.current,
        {
            proof {
                lemma_newlines_step(self.source@, self.current as int);
            }
            self.advance();
        }
    }

    /// A line break ends the statement unless a parenthesis is open.
    fn scan_newline(&mut self)
        requires
            old(self).frame_ok(),
            old(self).current >= 1,
            old(self).source@[old(self).current - 1] == '\n',
            old(self).line == 1 + newlines(old(self).source@.subrange(0, old(self).current - 1)),
        ensures
            final(self).step_ok(old(self)),
            final(self).current == old(self).current,
            final(self).errors == old(self).errors,
            final(self).line == old(self).line + 1,
            final(self).parens == old(self).parens,
            old(self).parens <= 0 ==> terminated(
                old(self).tokens@,
                final(self).tokens@,
                old(self).line as nat,
            ),
            old(self).parens > 0 ==> final(self).tokens == old(self).tokens,
    {
        proof {
            lemma_newlines_step(self.source@, self.current - 1);
            lemma_newlines_bound(self.source@.subrange(0, self.current - 1));
        }
        if self.parens <= 0 {
            self.add_semicolon();
        }
        self.line = self.line + 1;
    }

    fn scan_string(&mut self)
        requires
            old(self).wf(),
            old(self).current == old(self).start + 1,
            old(self).source@[old(self).start as int] == '"',
            forall|i: int|
                0 <= i < old(self).errors@.len() ==> !is_unterminated(
                    #[trigger] old(self).errors@[i],
                ),
        ensures
            final(self).step_ok(old(self)),
            final(self).parens == old(self).parens,
            ({
                let src = old(self).source@;
                let q = quote_end(src, old(self).current as int);
                if q < src.len() {
                    &&& final(self).current == q + 1
                    &&& pushed(
                        old(self).tokens@,
                        final(self).tokens@,
                        Kind::String,
                        src.subrange(old(self).start as int, q + 1),
                        final(self).line as nat,
                    )
                    &&& final(self).errors == old(self).errors
                } else {
                    &&& final(self).current == src.len()
                    &&& final(self).tokens == old(self).tokens
                    &&& reported(
                        old(self).errors@,
                        final(self).errors@,
                        old(self).line as nat,
                        "Unterminated string."@,
                    )
                }
            }),
    {
        let start_line = self.line;
        while !self.is_at_end() && self.peek() != '"'
            invariant
                self.step_ok(old(self)),
                self.tokens == old(self).tokens,
                self.errors == old(self).errors,
                self.parens == old(self).parens,
                start_line == old(self).line,
                start_line <= self.line,
                self.current > self.start,
                quote_end(self.source@, self.current as int) == quote_end(
                    self.source@,
                    old(self).current as int,
                ),
                forall|k: int| self.start < k < self.current ==> self.source@[k] != '"',
            decreases self.length - self.current,
        {
            proof {
                lemma_newlines_step(self.source@, self.current as int);
                lemma_newlines_bound(self.source@.subrange(0, self.current as int));
            }
            if self.peek() == '\n' {
                self.line = self.line + 1;
            }
            self.advance();
        }
        if self.is_at_end() {
            proof {
                reveal_strlit("Unterminated string.");
            }
            self.add_error(start_line, "Unterminated string.");
        } else {
            proof {
                lemma_newlines_step(self.source@, self.current as int);
            }
            self.advance();
            assert(is_string_text(self.source@.subrange(self.start as int, self.current as int)));
            self.add_token(Kind::String);
        }
    }

    fn scan_number(&mut self)
        requires
            old(self).wf(),
            old(self).current == old(self).start + 1,
            is_digit(old(self).source@[old(self).start as int]),
        ensures
            final(self).step_ok(old(self)),
            final(self).current == number_end(old(self).source@, old(self).start as int),
            pushed(
                old(self).tokens@,
                final(self).tokens@,
                Kind::Number,
                old(self).source@.subrange(old(self).start as int, final(self).current as int),
                final(self).line as nat,
            ),
            final(self).errors == old(self).errors,
            final(self).parens == old(self).parens,
    {
        while is_digit_char(self.peek())
            invariant
                self.step_ok(old(self)),
                self.tokens == old(self).tokens,
                self.errors == old(self).errors,
                self.parens == old(self).parens,
                self.current > self.start,
                self.line == old(self).line,
                all_digits(self.source@.subrange(self.start as int, self.current as int)),
                digits_end(self.source@, self.current as int) == digits_end(
                    self.source@,
                    old(self).current as int,
                ),
            decreases self.length - self.current,
        {
            proof {
                lemma_newlines_step(self.source@, self.current as int);
            }
            self.advance();
            assert(self.source@.subrange(self.start as int, self.current as int).drop_last()
                =~= old(self).source@.subrange(self.start as int, self.current - 1));
        }
        let ghost whole = self.current;
        if self.peek() == '.' && is_digit_char(self.peek_next()) {
            proof {
                lemma_newlines_step(self.source@, self.current as int);
            }
            self.advance();
            while is_digit_char(self.peek())
                invariant
                    self.step_ok(old(self)),
                    self.tokens == old(self).tokens,
                    self.errors == old(self).errors,
                    self.parens == old(self).parens,
                    self.start < whole < self.current,
                    self.source@[whole as int] == '.',
                    all_digits(self.source@.subrange(self.start as int, whole as int)),
                    all_digits(self.source@.subrange(whole + 1, self.current as int)),
                    whole + 1 < self.current || is_digit(char_at(self.source@, self.current as int)),
                    whole == digits_end(self.source@, old(self).current as int),
                    self.line == old(self).line,
                    digits_end(self.source@, self.current as int) == digits_end(
                        self.source@,
                        whole + 1,
                    ),
                decreases self.length - self.current,
            {
                proof {
                    lemma_newlines_step(self.source@, self.current as int);
                }
                self.advance();
                assert(self.source@.subrange(whole + 1, self.current as int).drop_last()
                    =~= self.source@.subrange(whole + 1, self.current - 1));
            }
            let ghost text = self.source@.subrange(self.start as int, self.current as int);
            let ghost k = whole - self.start;
            assert(text.subrange(0, k) =~= self.source@.subrange(self.start as int, whole as int));
            assert(text.subrange(k + 1, text.len() as int) =~= self.source@.subrange(
                whole + 1,
                self.current as int,
            ));
            assert(is_number_text(text));
        } else {
            let ghost text = self.source@.subrange(self.start as int, self.current as int);
            assert(text.subrange(0, text.len() as int) =~= text);
            assert(is_number_text(text));
        }
        self.add_token(Kind::Number);
    }

    fn scan_identifier(&mut self)
        requires
            old(self).wf(),
            old(self).current == old(self).start + 1,
            is_alpha(old(self).source@[old(self).start as int]),
        ensures
            final(self).step_ok(old(self)),
            final(self).current == word_end(old(self).source@, old(self).current as int),
            pushed(
                old(self).tokens@,
                final(self).tokens@,
                keyword_kind(
                    old(self).source@.subrange(old(self).start as int, final(self).current as int),
                ),
                old(self).source@.subrange(old(self).start as int, final(self).current as int),
                final(self).line as nat,
            ),
            final(self).errors == old(self).errors,
            final(self).parens == old(self).parens,
    {
        while is_alnum_char(self.peek())
            invariant
                self.step_ok(old(self)),
                self.tokens == old(self).tokens,
                self.errors == old(self).errors,
                self.parens == old(self).parens,
                self.current > self.start,
                forall|k: int| self.start <= k < self.current ==> is_alnum(#[trigger] self.source@[k]),
                self.line == old(self).line,
                word_end(self.source@, self.current as int) == word_end(
                    self.source@,
                    old(self).current as int,
                ),
            decreases self.length - self.current,
        {
            proof {
                lemma_newlines_step(self.source@, self.current as int);
            }
            self.advance();
        }
        let text = String::from_str(self.source.as_str().substring_char(self.start, self.current));
        let kind = keyword_of(&text);
        assert(is_word(text@));
        self.add_token(kind);
    }
}

impl Scanner {
    /// Reads the lexeme that starts at `start` and records what it stands
    /// for: a token, a statement terminator at a line break outside
    /// parentheses, or a diagnostic.
    fn scan_token(&mut self)
        requires
            old(self).wf(),
            old(self).start == old(self).current,
            old(self).current < old(self).length,
        ensures
            final(self).step_ok(old(self)),
            final(self).current > old(self).current,
            final(self).lexeme_scanned(old(self)),
    {
        let ghost at = self.start as int;
        let c = self.advance();
        proof {
            lemma_newlines_step(self.source@, at);
            assert(self.source@.subrange(at, at + 1) =~= seq![c]);
        }
        if c == '(' {
            self.add_token(Kind::LeftParen);
            self.parens = self.parens + 1;
        } else if c == ')' {
            self.add_token(Kind::RightParen);
            self.parens = self.parens - 1;
        } else if c == '{' {
            self.add_token(Kind::LeftBrace);
        } else if c == '}' {
            self.add_token(Kind::RightBrace);
        } else if c == ',' {
            self.add_token(Kind::Comma);
        } else if c == '+' {
            self.add_token(Kind::Plus);
        } else if c == '-' {
            self.add_token(Kind::Minus);
        } else if c == '*' {
            self.add_token(Kind::Star);
        } else if c == '/' {
            if self.compare('/') {
                proof {
                    lemma_newlines_step(self.source@, at + 1);
                }
                self.scan_comment();
            } else {
                self.add_token(Kind::Slash);
            }
        } else if c == '?' {
            self.add_token(Kind::Question);
        } else if c == ':' {
            self.add_token(Kind::Colon);
        } else if c == ';' {
            self.add_token(Kind::Semicolon);
        } else if c == '!' || c == '=' || c == '<' || c == '>' {
            let two = self.compare('=');
            proof {
                if two {
                    lemma_newlines_step(self.source@, at + 1);
                    assert(self.source@.subrange(at, at + 2) =~= seq![c, '=']);
                }
            }
            let kind = if c == '!' {
                if two {
                    Kind::BangEqual
                } else {
                    Kind::Bang
                }
            } else if c == '=' {
                if two {
                    Kind::EqualEqual
                } else {
                    Kind::Equal
                }
            } else if c == '<' {
                if two {
                    Kind::LessEqual
                } else {
                    Kind::Less
                }
            } else {
                if two {
                    Kind::GreaterEqual
                } else {
                    Kind::Greater
                }
            };
            self.add_token(kind);
        } else if (c == '&' || c == '|') && self.compare(c) {
            proof {
                lemma_newlines_step(self.source@, at + 1);
                assert(self.source@.subrange(at, at + 2) =~= seq![c, c]);
            }
            if c == '&' {
                self.add_token(Kind::AmpAmp);
            } else {
                self.add_token(Kind::BarBar);
            }
        } else if c == '\n' {
            self.scan_newline();
        } else if c == ' ' || c == '\r' || c == '\t' {
        } else if c == '"' {
            self.scan_string();
        } else if is_digit_char(c) {
            self.scan_number();
        } else if is_alpha_char(c) {
            self.scan_identifier();
        } else {
            proof {
                reveal_strlit("Unexpected character.");
                reveal_strlit("Unterminated string.");
                assert("Unexpected character."@[2] != "Unterminated string."@[2]);
            }
            self.add_error(self.line, "Unexpected character.");
        }
    }

    /// Scans the whole source. Tokens and diagnostics are handed over, and
    /// the scanner keeps none of them.
    pub fn scan(&mut self) -> (r: (Vec<Token>, Vec<SyntaxError>))
        requires
            old(self).wf(),
        ensures
            final(self).wf(),
            final(self).source_view() == old(self).source_view(),
            scan_output_ok(r.0@, r.1@, old(self).source_view()),
            tokens_model(r.0@) == final_tokens(
                old(self).source_view(),
                run(old(self).source_view(), old(self).state()),
            ),
            errors_model(r.1@) == run(old(self).source_view(), old(self).state()).errors,
    {
        while !self.is_at_end()
            invariant
                self.wf(),
                self.source == old(self).source,
                self.length == old(self).length,
                run(self.source@, self.state()) == run(self.source@, old(self).state()),
            decreases self.length - self.current,
        {
            self.start = self.current;
            let ghost before = *self;
            self.scan_token();
            proof {
                Scanner::lemma_scanned_step(before, *self);
                assert(run(self.source@, before.state()) == run(self.source@, self.state()));
            }
        }
        assert(run(self.source@, self.state()) == self.state());
        let ghost ended = *self;
        self.add_semicolon();
        let eof = Token { kind: Kind::EOF, lexeme: String::new(), line: self.line };
        let mut tokens: Vec<Token> = Vec::new();
        let mut errors: Vec<SyntaxError> = Vec::new();
        core::mem::swap(&mut self.tokens, &mut tokens);
        core::mem::swap(&mut self.errors, &mut errors);
        let ghost before = tokens@;
        tokens.push(eof);
        proof {
            assert(self.source@.subrange(0, self.length as int) =~= self.source@);
            assert(tokens@.drop_last() =~= before);
            assert(line_of(self.source@, self.length as int) == self.line);
            if wants_terminator(ended.tokens@) {
                assert forall|i: int| 0 <= i < ended.tokens@.len() implies before[i]
                    == ended.tokens@[i] by {
                    assert(before.drop_last()[i] == before[i]);
                }
            }
            assert(tokens_model(before) =~= terminate(tokens_model(ended.tokens@), self.line as nat));
            assert(tokens_model(tokens@) =~= tokens_model(before).push(
                (Kind::EOF, Seq::<char>::empty(), self.line as nat),
            ));
            assert(tokens@.last().lexeme@ =~= self.source@.subrange(0, 0));
            assert forall|i: int|
                0 <= i < tokens@.len() && (#[trigger] tokens@[i]).kind != Kind::Semicolon implies verbatim(
                tokens@[i],
                self.source@,
            ) by {
                if i < before.len() {
                    assert(tokens@[i] == before[i]);
                } else {
                    assert(tokens@[i].lexeme@ =~= self.source@.subrange(0, 0));
                }
            }
        }
        (tokens, errors)
    }
}

} // verus!
