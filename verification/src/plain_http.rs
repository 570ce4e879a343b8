//! The fixed greeting answered by the minimal single-port HTTP server.

use vstd::prelude::*;

verus! {

/// The character of a decimal digit.
pub open spec fn digit_char(d: nat) -> char {
    if d == 0 {
        '0'
    } else if d == 1 {
        '1'
    } else if d == 2 {
        '2'
    } else if d == 3 {
        '3'
    } else if d == 4 {
        '4'
    } else if d == 5 {
        '5'
    } else if d == 6 {
        '6'
    } else if d == 7 {
        '7'
    } else if d == 8 {
        '8'
    } else {
        '9'
    }
}

/// `n` written in decimal, without leading zeros.
pub open spec fn decimal(n: nat) -> Seq<char>
    decreases n,
{
    if n < 10 {
        seq![digit_char(n)]
    } else {
        decimal(n / 10).push(digit_char(n % 10))
    }
}

fn digit_text(d: usize) -> (r: &'static str)
    requires
        d < 10,
    ensures
        r@ == seq![digit_char(d as nat)],
{
    proof {
        reveal_strlit("0");
        reveal_strlit("1");
        reveal_strlit("2");
        reveal_strlit("3");
        reveal_strlit("4");
        reveal_strlit("5");
        reveal_strlit("6");
        reveal_strlit("7");
        reveal_strlit("8");
        reveal_strlit("9");
    }
    let r = if d == 0 {
        "0"
    } else if d == 1 {
        "1"
    } else if d == 2 {
        "2"
    } else if d == 3 {
        "3"
    } else if d == 4 {
        "4"
    } else if d == 5 {
        "5"
    } else if d == 6 {
        "6"
    } else if d == 7 {
        "7"
    } else if d == 8 {
        "8"
    } else {
        "9"
    };
    assert(r@ =~= seq![digit_char(d as nat)]);
    r
}

/// Writes `n` in decimal.
pub fn decimal_text(n: usize) -> (r: String)
    ensures
        r@ == decimal(n as nat),
    decreases n,
{
    if n < 10 {
        digit_text(n).to_owned()
    } else {
        let mut r = decimal_text(n / 10);
        r.append(digit_text(n % 10));
        r
    }
}

/// The status line and headers that precede a body of `length` bytes.
pub open spec fn greeting_head(length: nat) -> Seq<char> {
    "HTTP/1.1 200 OK\r\nContent-Length: "@ + decimal(length)
        + "\r\nContent-Type: text/plain; charset=utf-8\r\nConnection: close\r\n\r\n"@
}

/// A complete `200 OK` response carrying `body` as UTF-8 plain text, with
/// its length in bytes (`str::len`) and a closing connection.
pub fn plain_text_response(body: &str) -> (r: String)
    ensures
        r@ == greeting_head(body.len() as nat) + body@,
{
    let mut r = "HTTP/1.1 200 OK\r\nContent-Length: ".to_owned();
    let digits = decimal_text(body.len());
    r.append(digits.as_str());
    r.append("\r\nContent-Type: text/plain; charset=utf-8\r\nConnection: close\r\n\r\n");
    r.append(body);
    assert(r@ =~= greeting_head(body.len() as nat) + body@);
    r
}

/// The greeting the minimal server answers every connection with.
pub fn greeting_body() -> (r: &'static str)
    ensures
        r@ == "Hello from route_iq binary on :8080\n"@,
{
    "Hello from route_iq binary on :8080\n"
}

} // verus!
