//! Small helpers: ports, messages for people, and random identifiers.

use vstd::prelude::*;
use vstd::string::*;

verus! {

/// An ASCII letter or digit.
pub open spec fn is_alphanumeric(c: char) -> bool {
    ||| 'a' <= c <= 'z'
    ||| 'A' <= c <= 'Z'
    ||| '0' <= c <= '9'
}

/// Whether `port` can be connected to: any port but 0.
pub fn is_valid_port(port: u16) -> (r: bool)
    ensures
        r == (port > 0),
{
    port > 0
}

/// The message for an error: `Error: ` and what the error says of itself.
pub fn format_error<E: core::fmt::Display>(err: E) -> (message: String)
    ensures
        exists|shown: String|
            to_string_from_display_ensures::<E>(&err, shown) && message@ == "Error: "@ + shown@,
{
    let shown = err.to_string();
    String::from_str("Error: ").concat(shown.as_str())
}

/// A line for the log: the tag in square brackets, a blank, the message.
pub fn tagged(tag: &str, message: &str) -> (line: String)
    ensures
        line@ == "["@ + tag@ + "] "@ + message@,
{
    let mut line = String::from_str("[");
    line.append(tag);
    line.append("] ");
    line.append(message);
    line
}

/// Draws one character with `rand`'s `Rng::sample` on the thread-local
/// generator and the `Alphanumeric` distribution, which picks from the
/// letters `A` to `Z` and `a` to `z` and the digits `0` to `9`. Which of them
/// comes is left open.
#[verifier::external_body]
fn sample_alphanumeric() -> (c: char)
    ensures
        is_alphanumeric(c),
{
    let byte: u8 = rand::Rng::sample(&mut rand::thread_rng(), rand::distributions::Alphanumeric);
    char::from(byte)
}

/// `String::push`: appends one character to the end of the string.
#[verifier::external_body]
fn push_char(s: &mut String, c: char)
    ensures
        final(s)@ == old(s)@.push(c),
{
    s.push(c)
}

/// A random identifier of `len` ASCII letters and digits.
pub fn generate_random_id(len: usize) -> (id: String)
    ensures
        id@.len() == len,
        forall|i: int| 0 <= i < len ==> is_alphanumeric(#[trigger] id@[i]),
{
    let mut id = String::new();
    let mut n: usize = 0;
    while n < len
        invariant
            n <= len,
            id@.len() == n,
            forall|i: int| 0 <= i < n ==> is_alphanumeric(#[trigger] id@[i]),
        decreases len - n,
    {
        let c = sample_alphanumeric();
        push_char(&mut id, c);
        n += 1;
    }
    id
}

} // verus!
