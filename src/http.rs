//! The small HTTP front end that feeds the pool: which page a request line
//! asks for, and the bytes of the response that carries it.

use vstd::prelude::*;
use vstd::string::StringSliceAdditionalSpecFns;

verus! {

/// The one request line that is served the home page.
pub const ROOT_REQUEST: &'static str = "GET / HTTP/1.1";

/// The status line and the page sent for the root request.
pub const OK_STATUS: &'static str = "HTTP/1.1 200 OK";

pub const OK_PAGE: &'static str = "hello.html";

/// The status line and the page sent for any other request.
pub const NOT_FOUND_STATUS: &'static str = "HTTP/1.1 404 NOT FOUND";

pub const NOT_FOUND_PAGE: &'static str = "404.html";

/// What separates the status line from the body's length.
pub const LENGTH_HEADER: &'static str = "\r\nContent-Length: ";

/// What separates the body's length from the body.
pub const HEAD_END: &'static str = "\r\n\r\n\n";

/// The status line and the page for a request line: the home page for the
/// root request, the not-found page for anything else.
pub open spec fn route_of(line: Seq<char>) -> (Seq<char>, Seq<char>) {
    if line == ROOT_REQUEST@ {
        (OK_STATUS@, OK_PAGE@)
    } else {
        (NOT_FOUND_STATUS@, NOT_FOUND_PAGE@)
    }
}

/// The ASCII decimal digits of `n`, most significant first, without
/// leading zeros.
pub open spec fn decimal(n: nat) -> Seq<u8>
    decreases n,
{
    if n < 10 {
        seq![(48 + n) as u8]
    } else {
        decimal(n / 10).push((48 + n % 10) as u8)
    }
}

/// The bytes of a response: the status line, the length header, the body's
/// length in bytes as decimal digits, the end of the head, then the body.
pub open spec fn response_bytes(status_line: Seq<u8>, body: Seq<u8>) -> Seq<u8> {
    status_line + LENGTH_HEADER.spec_bytes() + decimal(body.len()) + HEAD_END.spec_bytes() + body
}

/// Picks the status line and the page to send for `request_line`.
pub fn route(request_line: &str) -> (r: (&'static str, &'static str))
    ensures
        (r.0@, r.1@) == route_of(request_line@),
{
    let line = request_line.to_owned();
    let root = ROOT_REQUEST.to_owned();
    if line == root {
        (OK_STATUS, OK_PAGE)
    } else {
        (NOT_FOUND_STATUS, NOT_FOUND_PAGE)
    }
}

fn push_bytes(out: &mut Vec<u8>, s: &str)
    ensures
        final(out)@ == old(out)@ + s.spec_bytes(),
{
    let bytes = s.as_bytes();
    let mut i: usize = 0;
    while i < bytes.len()
        invariant
            i <= bytes@.len(),
            bytes@ == s.spec_bytes(),
            out@ == old(out)@ + bytes@.subrange(0, i as int),
        decreases bytes@.len() - i,
    {
        out.push(bytes[i]);
        i = i + 1;
        assert(bytes@.subrange(0, i as int) =~= bytes@.subrange(0, i - 1 as int).push(bytes@[i - 1]));
    }
    assert(bytes@.subrange(0, i as int) =~= bytes@);
}

/// Appends the decimal digits of `n`.
pub fn push_decimal(out: &mut Vec<u8>, n: usize)
    ensures
        final(out)@ == old(out)@ + decimal(n as nat),
    decreases n,
{
    if n >= 10 {
        push_decimal(out, n / 10);
    }
    let digit: u8 = (n % 10) as u8;
    out.push(48 + digit);
    proof {
        if n < 10 {
            assert(old(out)@ + decimal(n as nat) =~= old(out)@.push((48 + n) as u8));
        } else {
            assert(old(out)@ + decimal(n as nat) =~= (old(out)@ + decimal((n / 10) as nat)).push(
                (48 + n % 10) as u8,
            ));
        }
    }
}

/// The bytes of the response that sends `contents` under `status_line`.
pub fn response(status_line: &str, contents: &str) -> (r: Vec<u8>)
    ensures
        r@ == response_bytes(status_line.spec_bytes(), contents.spec_bytes()),
{
    let mut out: Vec<u8> = Vec::new();
    push_bytes(&mut out, status_line);
    push_bytes(&mut out, LENGTH_HEADER);
    let n: usize = contents.as_bytes().len();
    push_decimal(&mut out, n);
    push_bytes(&mut out, HEAD_END);
    push_bytes(&mut out, contents);
    proof {
        assert(Seq::<u8>::empty() + status_line.spec_bytes() =~= status_line.spec_bytes());
    }
    out
}

} // verus!
