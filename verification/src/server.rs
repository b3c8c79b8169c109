//! The single-page HTTP responder: which page answers a request line, and
//! the bytes of the response that carries a page.

use vstd::prelude::*;
use vstd::string::StringSliceAdditionalSpecFns;

verus! {

/// The request line that is answered with the hello page.
pub const ROOT_REQUEST: &'static str = "GET / HTTP/1.1";

/// The status line that goes with the hello page.
pub const OK_STATUS: &'static str = "HTTP/1.1 200 OK";

/// The status line that goes with every other request.
pub const NOT_FOUND_STATUS: &'static str = "HTTP/1.1 404 NOT FOUND";

/// The file that holds the hello page.
pub const HELLO_PAGE: &'static str = "hello.html";

/// The file that holds the page for every other request.
pub const NOT_FOUND_PAGE: &'static str = "404.html";

/// What stands between the status line and the length of the body.
pub const LENGTH_HEADER: &'static str = "\r\nContent-Length: ";

/// What stands between the length of the body and the body.
pub const HEADER_END: &'static str = "\r\n\r\n";

/// A server and the address it listens on.
pub struct Server {
    pub ip_addr: String,
}

/// The ASCII digit for `d`, where `d` is below ten.
pub open spec fn digit(d: nat) -> u8 {
    (48 + d) as u8
}

/// `n` written in decimal, as ASCII digits without leading zeros.
pub open spec fn decimal(n: nat) -> Seq<u8>
    decreases n,
{
    if n < 10 {
        seq![digit(n)]
    } else {
        decimal(n / 10).push(digit(n % 10))
    }
}

/// The number that the ASCII digits `digits` spell in decimal.
pub open spec fn decimal_value(digits: Seq<u8>) -> nat
    decreases digits.len(),
{
    if digits.len() == 0 {
        0
    } else {
        (decimal_value(digits.drop_last()) * 10 + (digits.last() - 48)) as nat
    }
}

/// The decimal form of a number is made of digits only, starts with a zero
/// only for the number 0, and spells that number.
pub proof fn lemma_decimal_spells_the_number(n: nat)
    ensures
        decimal(n).len() >= 1,
        forall|i: int| 0 <= i < decimal(n).len() ==> 48 <= #[trigger] decimal(n)[i] <= 57,
        decimal(n)[0] == 48 <==> n == 0,
        decimal_value(decimal(n)) == n,
    decreases n,
{
    if n < 10 {
        let digits = decimal(n);
        assert(digits.drop_last() =~= Seq::<u8>::empty());
        assert(decimal_value(digits.drop_last()) == 0);
    } else {
        lemma_decimal_spells_the_number(n / 10);
        let front = decimal(n / 10);
        let digits = decimal(n);
        assert(digits.drop_last() =~= front);
        assert(digits[0] == front[0]);
    }
}

/// The bytes of the response that carries `contents` under `status_line`: the
/// status line, the length of the body in bytes, an empty line, the body.
pub open spec fn response_bytes(status_line: Seq<u8>, contents: Seq<u8>) -> Seq<u8> {
    status_line + LENGTH_HEADER.spec_bytes() + decimal(contents.len()) + HEADER_END.spec_bytes()
        + contents
}

fn same_bytes(left: &[u8], right: &[u8]) -> (same: bool)
    ensures
        same == (left@ == right@),
{
    if left.len() != right.len() {
        return false;
    }
    let mut i: usize = 0;
    while i < left.len()
        invariant
            left@.len() == right@.len(),
            i <= left@.len(),
            forall|j: int| 0 <= j < i ==> left@[j] == right@[j],
        decreases left@.len() - i,
    {
        if left[i] != right[i] {
            return false;
        }
        i += 1;
    }
    assert(left@ =~= right@);
    true
}

fn append(out: &mut Vec<u8>, bytes: &[u8])
    ensures
        final(out)@ == old(out)@ + bytes@,
{
    let mut i: usize = 0;
    while i < bytes.len()
        invariant
            i <= bytes@.len(),
            out@ == old(out)@ + bytes@.take(i as int),
        decreases bytes@.len() - i,
    {
        out.push(bytes[i]);
        assert(bytes@.take(i + 1) =~= bytes@.take(i as int).push(bytes@[i as int]));
        i += 1;
    }
    assert(bytes@.take(bytes@.len() as int) =~= bytes@);
}

fn decimal_digits(n: usize) -> (digits: Vec<u8>)
    ensures
        digits@ == decimal(n as nat),
{
    let mut reversed: Vec<u8> = Vec::new();
    let mut rest: usize = n;
    while rest >= 10
        invariant
            decimal(n as nat) == decimal(rest as nat) + reversed@.reverse(),
        decreases rest,
    {
        let low = (rest % 10) as u8;
        let ghost earlier = reversed@;
        reversed.push(48 + low);
        proof {
            let d = digit((rest % 10) as nat);
            assert(reversed@.reverse() =~= seq![d] + earlier.reverse());
            assert(decimal(rest as nat) == decimal((rest / 10) as nat).push(d));
            assert(decimal((rest / 10) as nat).push(d) + earlier.reverse() =~= decimal(
                (rest / 10) as nat,
            ) + (seq![d] + earlier.reverse()));
        }
        rest = rest / 10;
    }
    let ghost earlier = reversed@;
    reversed.push(48 + rest as u8);
    assert(reversed@.reverse() =~= decimal(rest as nat) + earlier.reverse());
    let mut digits: Vec<u8> = Vec::new();
    let mut left: usize = reversed.len();
    while left > 0
        invariant
            left <= reversed@.len(),
            digits@ == reversed@.reverse().take(reversed@.len() - left),
        decreases left,
    {
        left -= 1;
        digits.push(reversed[left]);
        assert(reversed@.reverse().take(reversed@.len() - left) =~= reversed@.reverse().take(
            reversed@.len() - left - 1,
        ).push(reversed@[left as int]));
    }
    assert(reversed@.reverse().take(reversed@.len() as int) =~= reversed@.reverse());
    digits
}

impl Server {
    /// The status line and the file that answer `request_line`: the hello
    /// page for a request of the root, the not-found page for anything else.
    pub fn select_page(request_line: &str) -> (page: (&'static str, &'static str))
        ensures
            page == if request_line.spec_bytes() == ROOT_REQUEST.spec_bytes() {
                (OK_STATUS, HELLO_PAGE)
            } else {
                (NOT_FOUND_STATUS, NOT_FOUND_PAGE)
            },
    {
        if same_bytes(request_line.as_bytes(), ROOT_REQUEST.as_bytes()) {
            (OK_STATUS, HELLO_PAGE)
        } else {
            (NOT_FOUND_STATUS, NOT_FOUND_PAGE)
        }
    }

    /// The response that carries `contents` under `status_line`, ready to be
    /// written to the connection.
    pub fn response(status_line: &str, contents: &str) -> (bytes: Vec<u8>)
        ensures
            bytes@ == response_bytes(status_line.spec_bytes(), contents.spec_bytes()),
    {
        let mut bytes: Vec<u8> = Vec::new();
        append(&mut bytes, status_line.as_bytes());
        append(&mut bytes, LENGTH_HEADER.as_bytes());
        let body = contents.as_bytes();
        let length = decimal_digits(body.len());
        append(&mut bytes, length.as_slice());
        append(&mut bytes, HEADER_END.as_bytes());
        append(&mut bytes, body);
        assert(bytes@ =~= response_bytes(status_line.spec_bytes(), contents.spec_bytes()));
        bytes
    }
}

} // verus!
