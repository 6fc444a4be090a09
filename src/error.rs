use vstd::prelude::*;

verus! {

/// A diagnostic from scanning or parsing.
#[derive(Clone, Debug)]
pub struct SyntaxError {
    pub line: usize,
    /// `" at end"`, `" at '<lexeme>'"`, or empty for scanner diagnostics.
    pub location: String,
    pub message: String,
}

/// A diagnostic from lowering the syntax tree to target text.
#[derive(Clone, Debug)]
pub struct GenerateError {
    pub line: usize,
    pub message: String,
}

/// The character of a decimal digit.
pub open spec fn digit_char(d: nat) -> char {
    if d == 0 {
        '0'
    } else if d == 1 {
        '1'
    } else if d == 2 {
        '2'
    } else if d == 3 {
        '3'
    } else if d == 4 {
        '4'
    } else if d == 5 {
        '5'
    } else if d == 6 {
        '6'
    } else if d == 7 {
        '7'
    } else if d == 8 {
        '8'
    } else {
        '9'
    }
}

/// The decimal representation of `n`, without leading zeros.
pub open spec fn decimal(n: nat) -> Seq<char>
    decreases n,
{
    if n < 10 {
        seq![digit_char(n)]
    } else {
        decimal(n / 10).push(digit_char(n % 10))
    }
}

/// How a syntax error reads: `[line L] Error<location>: message`.
pub open spec fn syntax_error_text(line: nat, location: Seq<char>, message: Seq<char>) -> Seq<
    char,
> {
    "[line "@ + decimal(line) + "] Error"@ + location + ": "@ + message
}

/// How a generation error reads: `[line L] Error: message`.
pub open spec fn generate_error_text(line: nat, message: Seq<char>) -> Seq<char> {
    "[line "@ + decimal(line) + "] Error: "@ + message
}

fn digit_str(d: usize) -> (r: &'static str)
    requires
        d < 10,
    ensures
        r@ == seq![digit_char(d as nat)],
{
    proof {
        reveal_strlit("0");
        reveal_strlit("1");
        reveal_strlit("2");
        reveal_strlit("3");
        reveal_strlit("4");
        reveal_strlit("5");
        reveal_strlit("6");
        reveal_strlit("7");
        reveal_strlit("8");
        reveal_strlit("9");
    }
    if d == 0 {
        "0"
    } else if d == 1 {
        "1"
    } else if d == 2 {
        "2"
    } else if d == 3 {
        "3"
    } else if d == 4 {
        "4"
    } else if d == 5 {
        "5"
    } else if d == 6 {
        "6"
    } else if d == 7 {
        "7"
    } else if d == 8 {
        "8"
    } else {
        "9"
    }
}

/// Writes `n` in decimal.
pub fn decimal_string(n: usize) -> (r: String)
    ensures
        r@ == decimal(n as nat),
    decreases n,
{
    if n < 10 {
        String::from_str(digit_str(n))
    } else {
        let mut s = decimal_string(n / 10);
        s.append(digit_str(n % 10));
        s
    }
}

impl SyntaxError {
    /// The diagnostic as it is shown to a user.
    pub fn render(&self) -> (r: String)
        ensures
            r@ == syntax_error_text(self.line as nat, self.location@, self.message@),
    {
        let mut s = String::from_str("[line ");
        let n = decimal_string(self.line);
        s.append(n.as_str());
        s.append("] Error");
        s.append(self.location.as_str());
        s.append(": ");
        s.append(self.message.as_str());
        s
    }
}

impl GenerateError {
    /// The diagnostic as it is shown to a user.
    pub fn render(&self) -> (r: String)
        ensures
            r@ == generate_error_text(self.line as nat, self.message@),
    {
        let mut s = String::from_str("[line ");
        let n = decimal_string(self.line);
        s.append(n.as_str());
        s.append("] Error: ");
        s.append(self.message.as_str());
        s
    }
}

} // verus!
