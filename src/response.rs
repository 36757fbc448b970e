//! The responses written back on a connection.

use vstd::prelude::*;
use vstd::utf8::encode_utf8;
use vstd::string::StringExecFns;
use crate::text::push_char;

verus! {

/// The status line and length field that open a served page.
pub const OK_HEAD: &'static str = "HTTP/1.1 200 OK\r\nContentLength: ";

/// The separator between the length field and the page.
pub const OK_SEPARATOR: &'static str = "\r\n\r\n";

/// The status line of the not-found response, with its empty line.
pub const NOT_FOUND_HEAD: &'static str = "HTTP/1.1 404 NOT FOUND\r\n\r\n";

/// The decimal digit for `d < 10`.
pub open spec fn digit_char(d: nat) -> char {
    seq!['0', '1', '2', '3', '4', '5', '6', '7', '8', '9'][d as int]
}

/// The decimal representation of `n`, without leading zeros.
pub open spec fn decimal(n: nat) -> Seq<char>
    decreases n,
{
    if n < 10 {
        seq![digit_char(n)]
    } else {
        decimal(n / 10).push(digit_char(n % 10))
    }
}

/// The number of bytes in the UTF-8 encoding of `s`.
pub open spec fn byte_len(s: Seq<char>) -> nat {
    encode_utf8(s).len()
}

/// The response that serves `content`.
pub open spec fn ok_response(content: Seq<char>) -> Seq<char> {
    OK_HEAD@ + decimal(byte_len(content)) + OK_SEPARATOR@ + content
}

/// The not-found response whose body is `page`.
pub open spec fn not_found_response(page: Seq<char>) -> Seq<char> {
    NOT_FOUND_HEAD@ + page
}

fn digit(d: usize) -> (c: char)
    requires
        d < 10,
    ensures
        c == digit_char(d as nat),
{
    let digits: [char; 10] = ['0', '1', '2', '3', '4', '5', '6', '7', '8', '9'];
    digits[d]
}

/// Appends the decimal representation of `n` to `s`.
pub fn push_decimal(s: &mut String, n: usize)
    ensures
        final(s)@ == old(s)@ + decimal(n as nat),
    decreases n,
{
    if n >= 10 {
        push_decimal(s, n / 10);
    }
    push_char(s, digit(n % 10));
}

/// The response that serves `content`: a 200 status line, a length field
/// holding the byte length of `content`, an empty line, then `content`.
pub fn create_response(content: &str) -> (r: String)
    ensures
        r@ == ok_response(content@),
{
    let mut r = String::new();
    r.append(OK_HEAD);
    let n = content.as_bytes().len();
    assert(n as nat == byte_len(content@));
    push_decimal(&mut r, n);
    r.append(OK_SEPARATOR);
    r.append(content);
    assert(r@ =~= ok_response(content@));
    r
}

/// The not-found response: a 404 status line, an empty line, then `page`.
pub fn respond_error_404(page: &str) -> (r: String)
    ensures
        r@ == not_found_response(page@),
{
    let mut r = String::new();
    r.append(NOT_FOUND_HEAD);
    r.append(page);
    assert(r@ =~= not_found_response(page@));
    r
}

} // verus!
