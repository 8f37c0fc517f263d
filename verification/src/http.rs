//! Request routing and response rendering for the minimal web server the
//! pool serves: one request line in, one status line and resource name out,
//! and the full response text assembled around the body that was read for
//! that resource.
//!
//! The listener itself — accepting connections, reading the request line,
//! reading the resource from disk, writing the response back — is I/O and
//! stays outside this crate; it hands the request line in and takes the
//! response text back as plain strings.

use vstd::prelude::*;
use vstd::string::StrSliceExecFns;
use vstd::string::StringExecFns;
use vstd::string::StringSliceAdditionalSpecFns;

verus! {

/// The decimal digit character for `d` (`d < 10`).
pub open spec fn dec_digit(d: nat) -> char {
    ((d + 48) as u8) as char
}

/// The decimal representation of `n`: most significant digit first, no
/// sign, no padding, and a single `'0'` for zero.
pub open spec fn dec_rep(n: nat) -> Seq<char>
    decreases n,
{
    if n < 10 {
        seq![dec_digit(n)]
    } else {
        dec_rep(n / 10).push(dec_digit(n % 10))
    }
}

/// Relies on `String::push`: appends exactly the one character `c`.
#[verifier::external_body]
fn push_char(s: &mut String, c: char)
    ensures
        final(s)@ == old(s)@.push(c),
{
    s.push(c);
}

/// The decimal representation of `n` as a string.
pub fn decimal_string(n: usize) -> (s: String)
    ensures
        s@ == dec_rep(n as nat),
    decreases n,
{
    let d = ((n % 10) as u8 + 48) as char;
    proof {
        assert(d == dec_digit((n % 10) as nat));
    }
    if n < 10 {
        let mut s = String::new();
        push_char(&mut s, d);
        proof {
            assert(s@ =~= seq![dec_digit(n as nat)]);
        }
        s
    } else {
        let mut s = decimal_string(n / 10);
        push_char(&mut s, d);
        s
    }
}

/// Whether two strings hold the same characters.
pub fn str_eq(a: &str, b: &str) -> (r: bool)
    ensures
        r == (a@ == b@),
{
    let n = a.unicode_len();
    let m = b.unicode_len();
    if n != m {
        return false;
    }
    let mut j: usize = 0;
    while j < n
        invariant
            n == a@.len() == b@.len(),
            0 <= j <= n,
            forall|k: int| 0 <= k < j ==> a@[k] == b@[k],
        decreases n - j,
    {
        if a.get_char(j) != b.get_char(j) {
            return false;
        }
        j += 1;
    }
    proof {
        assert(a@ =~= b@);
    }
    true
}

/// The status line and resource name for a request line: the root request
/// gets the greeting page with a success status, anything else gets the
/// fallback page with a not-found status.
pub fn route(request_line: &str) -> (r: (&'static str, &'static str))
    ensures
        request_line@ == "GET / HTTP/1.1"@ ==> r.0@ == "HTTP/1.1 200 OK"@ && r.1@
            == "hello.html"@,
        request_line@ != "GET / HTTP/1.1"@ ==> r.0@ == "HTTP/1.1 404 NOT FOUND"@ && r.1@
            == "404.html"@,
{
    if str_eq(request_line, "GET / HTTP/1.1") {
        ("HTTP/1.1 200 OK", "hello.html")
    } else {
        ("HTTP/1.1 404 NOT FOUND", "404.html")
    }
}

/// The full response text: the status line, a `Content-Length` header for
/// the byte length of the body, a blank line, then the body.
pub fn render_response(status_line: &str, contents: &str) -> (response: String)
    ensures
        response@ == status_line@ + "\r\nContent-Length: "@ + dec_rep(
            contents.len() as nat,
        ) + "\r\n\r\n"@ + contents@,
        contents.len() == contents.spec_bytes().len() as usize,
{
    let mut response = status_line.to_owned();
    response.append("\r\nContent-Length: ");
    let length = contents.len();
    let length_text = decimal_string(length);
    response.append(length_text.as_str());
    response.append("\r\n\r\n");
    response.append(contents);
    proof {
        assert(response@ =~= status_line@ + "\r\nContent-Length: "@ + dec_rep(
            contents.len() as nat,
        ) + "\r\n\r\n"@ + contents@);
    }
    response
}

} // verus!

