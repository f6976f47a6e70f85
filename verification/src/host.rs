//! What the host provides: the caller's identity, random characters and the
//! colours of the terminal.

use vstd::prelude::*;
use colored::Colorize;
use rand::Rng;

verus! {

/// The letters and digits of ASCII.
pub open spec fn is_alphanumeric(c: char) -> bool {
    ||| '0' <= c <= '9'
    ||| 'A' <= c <= 'Z'
    ||| 'a' <= c <= 'z'
}

/// `text` between the escape sequence that selects the foreground colour
/// `code` and the one that resets it.
pub open spec fn styled(code: Seq<char>, text: Seq<char>) -> Seq<char> {
    seq!['\x1b', '['] + code + seq!['m'] + text + seq!['\x1b', '[', '0', 'm']
}

/// `out` shows `text` in the colour `code`, or plainly where colours are
/// switched off.
pub open spec fn painted(code: Seq<char>, text: Seq<char>, out: Seq<char>) -> bool {
    out == text || out == styled(code, text)
}

/// The code of the blue foreground.
pub open spec fn blue() -> Seq<char> {
    seq!['3', '4']
}

/// The code of the red foreground.
pub open spec fn red() -> Seq<char> {
    seq!['3', '1']
}

/// The user identifier of the calling process, as `Uid::current` of nix
/// reports it. Nothing is claimed of the number.
#[verifier::external_body]
pub(crate) fn current_uid() -> u32 {
    nix::unistd::Uid::current().as_raw()
}

/// One character drawn from the thread's generator of rand with the
/// distribution `Alphanumeric`, which yields the letters and digits of ASCII
/// and nothing else. Which of them comes is left open.
#[verifier::external_body]
pub(crate) fn sample_alphanumeric() -> (c: char)
    ensures
        is_alphanumeric(c),
{
    rand::thread_rng().sample(rand::distributions::Alphanumeric)
}

/// `text` as `Colorize::blue` of colored displays it: unchanged where
/// colours are switched off, else wrapped in the escape sequences for blue
/// and reset. A text that itself holds an escape character may be rewritten
/// inside, so nothing is claimed of it.
#[verifier::external_body]
pub(crate) fn paint_blue(text: &str) -> (out: String)
    ensures
        !text@.contains('\x1b') ==> painted(blue(), text@, out@),
{
    text.blue().to_string()
}

/// `text` as `Colorize::red` of colored displays it: unchanged where colours
/// are switched off, else wrapped in the escape sequences for red and reset.
/// A text that itself holds an escape character may be rewritten inside, so
/// nothing is claimed of it.
#[verifier::external_body]
pub(crate) fn paint_red(text: &str) -> (out: String)
    ensures
        !text@.contains('\x1b') ==> painted(red(), text@, out@),
{
    text.red().to_string()
}

} // verus!
