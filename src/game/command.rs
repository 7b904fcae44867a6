use vstd::prelude::*;

verus! {

pub const UNKNOWN_COMMAND: &'static str = "Unknown command";

pub const INVALID_SYNTAX: &'static str = "Invalid syntax for command";

pub const INVALID_FIRST_ARGUMENT: &'static str = "Invalid first argument value: not a number";

pub const INVALID_SECOND_ARGUMENT: &'static str = "Invalid second argument value: not a number";

pub const INVALID_ARGUMENT_VALUE: &'static str = "Invalid argument value";

pub const EMPTY_COMMAND: &'static str = "Unable to parse command";

/// A request to the simulator. Coordinates of `Toggle` count from 1.
#[derive(Clone, Copy, Debug, PartialEq, Eq, Structural)]
pub enum Command {
    New { width: usize, height: usize },
    Toggle { x: usize, y: usize },
    Play,
    Step,
    Quit,
}

/// The decimal digit for `d < 10`.
pub open spec fn digit_char(d: nat) -> char {
    seq!['0', '1', '2', '3', '4', '5', '6', '7', '8', '9'][d as int]
}

/// `n` in base ten, without sign or leading zeros.
pub open spec fn decimal_text(n: nat) -> Seq<char>
    decreases n,
{
    if n < 10 {
        seq![digit_char(n)]
    } else {
        decimal_text(n / 10) + seq![digit_char(n % 10)]
    }
}

/// Relies on `usize::to_string`: the base-ten form of `n`.
#[verifier::external_body]
fn decimal(n: usize) -> (r: String)
    ensures
        r@ == decimal_text(n as nat),
{
    n.to_string()
}

/// The one-line description of a command.
pub open spec fn command_text(c: Command) -> Seq<char> {
    match c {
        Command::Quit => "Quit"@,
        Command::Play => "Play"@,
        Command::Step => "Step"@,
        Command::New { width, height } => "New [width: "@ + decimal_text(width as nat)
            + " height: "@ + decimal_text(height as nat) + "]"@,
        Command::Toggle { x, y } => "Toggle [x: "@ + decimal_text(x as nat) + " y: "@
            + decimal_text(y as nat) + "]"@,
    }
}

impl Command {
    /// The command as one line of text, such as `New [width: 30 height: 20]`.
    pub fn describe(&self) -> (text: String)
        ensures
            text@ == command_text(*self),
    {
        match *self {
            Command::Quit => String::from_str("Quit"),
            Command::Play => String::from_str("Play"),
            Command::Step => String::from_str("Step"),
            Command::New { width, height } => {
                let mut text = String::from_str("New [width: ");
                text.append(decimal(width).as_str());
                text.append(" height: ");
                text.append(decimal(height).as_str());
                text.append("]");
                text
            },
            Command::Toggle { x, y } => {
                let mut text = String::from_str("Toggle [x: ");
                text.append(decimal(x).as_str());
                text.append(" y: ");
                text.append(decimal(y).as_str());
                text.append("]");
                text
            },
        }
    }
}

pub open spec fn is_decimal_digit(c: char) -> bool {
    '0' <= c && c <= '9'
}

/// The number written by a string of decimal digits.
pub open spec fn digits_value(d: Seq<char>) -> nat
    decreases d.len(),
{
    if d.len() == 0 {
        0
    } else {
        digits_value(d.drop_last()) * 10 + ((d.last() as u32) - ('0' as u32)) as nat
    }
}

/// The text with one leading `+` taken off, if it has one.
pub open spec fn unsigned_digits(s: Seq<char>) -> Seq<char> {
    if s.len() > 0 && s[0] == '+' {
        s.drop_first()
    } else {
        s
    }
}

/// Whether `s` is the decimal form of a `usize`: an optional `+`, then one
/// or more ASCII digits whose value fits.
pub open spec fn is_usize_text(s: Seq<char>) -> bool {
    let d = unsigned_digits(s);
    &&& d.len() > 0
    &&& forall|i: int| 0 <= i < d.len() ==> is_decimal_digit(#[trigger] d[i])
    &&& digits_value(d) <= usize::MAX
}

/// Relies on `str::parse::<usize>`: an optional `+` and then only ASCII
/// digits, with a value that fits; anything else is an error.
#[verifier::external_body]
fn parse_usize(s: &str) -> (r: Option<usize>)
    ensures
        r is Some <==> is_usize_text(s@),
        r matches Some(n) ==> n as nat == digits_value(unsigned_digits(s@)),
{
    s.parse::<usize>().ok()
}

/// The pieces of `s` that `str::split_whitespace` hands out, in order.
pub uninterp spec fn whitespace_tokens(s: Seq<char>) -> Seq<Seq<char>>;

/// Relies on `str::split_whitespace`: the text between runs of white space.
#[verifier::external_body]
fn split_tokens(s: &str) -> (tokens: Vec<&str>)
    ensures
        tokens@.map_values(|t: &str| t@) == whitespace_tokens(s@),
{
    s.split_whitespace().collect()
}

/// Whether two strings hold the same characters.
fn same_text(a: &str, b: &str) -> (r: bool)
    ensures
        r == (a@ == b@),
{
    let n = a.unicode_len();
    if n != b.unicode_len() {
        return false;
    }
    let mut i: usize = 0;
    while i < n
        invariant
            n == a@.len(),
            n == b@.len(),
            i <= n,
            a@.subrange(0, i as int) == b@.subrange(0, i as int),
        decreases n - i,
    {
        if a.get_char(i) != b.get_char(i) {
            assert(a@[i as int] != b@[i as int]);
            return false;
        }
        assert(a@.subrange(0, i + 1) =~= a@.subrange(0, i as int).push(a@[i as int]));
        assert(b@.subrange(0, i + 1) =~= b@.subrange(0, i as int).push(b@[i as int]));
        i = i + 1;
    }
    assert(a@ =~= a@.subrange(0, n as int));
    assert(b@ =~= b@.subrange(0, n as int));
    true
}

pub open spec fn names_new(t: Seq<char>) -> bool {
    t == "new"@ || t == "n"@
}

pub open spec fn names_toggle(t: Seq<char>) -> bool {
    t == "toggle"@ || t == "t"@
}

/// What a line split into `tokens` means: a command word (or its first
/// letter), followed for `new` and `toggle` by two positive numbers.
pub open spec fn parse_spec(tokens: Seq<Seq<char>>) -> Result<Command, Seq<char>> {
    if tokens.len() == 0 {
        Err(EMPTY_COMMAND@)
    } else if tokens[0] == "quit"@ || tokens[0] == "q"@ {
        Ok(Command::Quit)
    } else if tokens[0] == "play"@ || tokens[0] == "p"@ {
        Ok(Command::Play)
    } else if tokens[0] == "step"@ || tokens[0] == "s"@ {
        Ok(Command::Step)
    } else if names_new(tokens[0]) || names_toggle(tokens[0]) {
        if tokens.len() != 3 {
            Err(INVALID_SYNTAX@)
        } else if !is_usize_text(tokens[1]) {
            Err(INVALID_FIRST_ARGUMENT@)
        } else if !is_usize_text(tokens[2]) {
            Err(INVALID_SECOND_ARGUMENT@)
        } else {
            let first = digits_value(unsigned_digits(tokens[1]));
            let second = digits_value(unsigned_digits(tokens[2]));
            if first == 0 || second == 0 {
                Err(INVALID_ARGUMENT_VALUE@)
            } else if names_new(tokens[0]) {
                Ok(Command::New { width: first as usize, height: second as usize })
            } else {
                Ok(Command::Toggle { x: first as usize, y: second as usize })
            }
        }
    } else {
        Err(UNKNOWN_COMMAND@)
    }
}

/// A parse result with the error message seen as its characters.
pub open spec fn outcome(r: Result<Command, &'static str>) -> Result<Command, Seq<char>> {
    match r {
        Ok(c) => Ok(c),
        Err(e) => Err(e@),
    }
}

/// Interprets a line already split into tokens.
pub fn parse_tokens(tokens: &Vec<&str>) -> (r: Result<Command, &'static str>)
    ensures
        outcome(r) == parse_spec(tokens@.map_values(|t: &str| t@)),
{
    let ghost toks = tokens@.map_values(|t: &str| t@);
    if tokens.len() == 0 {
        return Err(EMPTY_COMMAND);
    }
    let word = tokens[0];
    assert(word@ == toks[0]);
    if same_text(word, "quit") || same_text(word, "q") {
        return Ok(Command::Quit);
    }
    if same_text(word, "play") || same_text(word, "p") {
        return Ok(Command::Play);
    }
    if same_text(word, "step") || same_text(word, "s") {
        return Ok(Command::Step);
    }
    let is_new = same_text(word, "new") || same_text(word, "n");
    let is_toggle = same_text(word, "toggle") || same_text(word, "t");
    if !is_new && !is_toggle {
        return Err(UNKNOWN_COMMAND);
    }
    if tokens.len() != 3 {
        return Err(INVALID_SYNTAX);
    }
    assert(tokens[1]@ == toks[1] && tokens[2]@ == toks[2]);
    let first = match parse_usize(tokens[1]) {
        Some(n) => n,
        None => {
            return Err(INVALID_FIRST_ARGUMENT);
        },
    };
    let second = match parse_usize(tokens[2]) {
        Some(n) => n,
        None => {
            return Err(INVALID_SECOND_ARGUMENT);
        },
    };
    if first == 0 || second == 0 {
        return Err(INVALID_ARGUMENT_VALUE);
    }
    if is_new {
        Ok(Command::New { width: first, height: second })
    } else {
        Ok(Command::Toggle { x: first, y: second })
    }
}

/// Interprets one line of input.
pub fn parse_command(input: &str) -> (r: Result<Command, &'static str>)
    ensures
        outcome(r) == parse_spec(whitespace_tokens(input@)),
{
    let tokens = split_tokens(input);
    parse_tokens(&tokens)
}

} // verus!
