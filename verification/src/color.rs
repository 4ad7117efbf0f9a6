//! ANSI colouring of terminal text.
use vstd::prelude::*;

verus! {

/// The sequence that ends a colour.
pub open spec fn reset_seq() -> Seq<char> {
    "\x1b[0m"@
}

/// `text` between a colour's opening sequence and the reset sequence.
pub open spec fn wrap(open: Seq<char>, text: Seq<char>) -> Seq<char> {
    open + text + reset_seq()
}

/// `text` between `open` and the reset sequence.
fn paint(open: &str, text: &str) -> (r: String)
    ensures
        r@ == wrap(open@, text@),
{
    let s = String::from_str(open);
    let s = s.concat(text);
    s.concat("\x1b[0m")
}

/// `text` in red (ANSI code 31).
pub fn red(text: &str) -> (r: String)
    ensures
        r@ == wrap("\x1b[31m"@, text@),
{
    paint("\x1b[31m", text)
}

/// `text` in green (ANSI code 32).
pub fn green(text: &str) -> (r: String)
    ensures
        r@ == wrap("\x1b[32m"@, text@),
{
    paint("\x1b[32m", text)
}

/// `text` in yellow (ANSI code 33).
pub fn yellow(text: &str) -> (r: String)
    ensures
        r@ == wrap("\x1b[33m"@, text@),
{
    paint("\x1b[33m", text)
}

/// `text` in blue (ANSI code 34).
pub fn blue(text: &str) -> (r: String)
    ensures
        r@ == wrap("\x1b[34m"@, text@),
{
    paint("\x1b[34m", text)
}

/// `text` in magenta (ANSI code 35).
pub fn magenta(text: &str) -> (r: String)
    ensures
        r@ == wrap("\x1b[35m"@, text@),
{
    paint("\x1b[35m", text)
}

/// `text` in cyan (ANSI code 36).
pub fn cyan(text: &str) -> (r: String)
    ensures
        r@ == wrap("\x1b[36m"@, text@),
{
    paint("\x1b[36m", text)
}

/// `text` in white (ANSI code 37).
pub fn white(text: &str) -> (r: String)
    ensures
        r@ == wrap("\x1b[37m"@, text@),
{
    paint("\x1b[37m", text)
}

/// An error line: `Error: ` in red, then the text.
pub fn error(text: &str) -> (r: String)
    ensures
        r@ == wrap("\x1b[31m"@, "Error: "@) + text@,
{
    let s = red("Error: ");
    s.concat(text)
}

/// An information line: `Info: ` in green, then the text.
pub fn info(text: &str) -> (r: String)
    ensures
        r@ == wrap("\x1b[32m"@, "Info: "@) + text@,
{
    let s = green("Info: ");
    s.concat(text)
}

} // verus!
