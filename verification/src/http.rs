//! Formatting of the wire response.
//!
//! Every request is answered with the same shape of message:
//! `HTTP/1.1 200 OK\r\nContent-Length: <n>\r\n\r\n<body>`, where `<n>` is the
//! decimal byte length of `<body>` and `<body>` is the resource content that
//! the request processor produced.

use vstd::prelude::*;

verus! {

/// Decimal digit bytes of `n`: ASCII, most significant digit first, no sign,
/// no leading zero (a single `0` for zero).
pub open spec fn dec_digits(n: nat) -> Seq<u8>
    decreases n,
{
    if n < 10 {
        seq![(n + 0x30) as u8]
    } else {
        dec_digits(n / 10).push((n % 10 + 0x30) as u8)
    }
}

/// The number that a run of ASCII digit bytes denotes (most significant
/// digit first).
pub open spec fn dec_value(s: Seq<u8>) -> int
    decreases s.len(),
{
    if s.len() == 0 {
        0
    } else {
        dec_value(s.drop_last()) * 10 + s.last() - 0x30
    }
}

/// Reading the digits of `n` back yields `n`.
pub proof fn lemma_dec_round_trip(n: nat)
    ensures
        dec_value(dec_digits(n)) == n,
    decreases n,
{
    if n < 10 {
        let s = dec_digits(n);
        assert(s =~= seq![(n + 0x30) as u8]);
        assert(s.drop_last() =~= Seq::<u8>::empty());
        assert(dec_value(s.drop_last()) == 0);
        assert(s.last() == (n + 0x30) as u8);
        assert(dec_value(s) == (n + 0x30) as u8 - 0x30);
    } else {
        lemma_dec_round_trip(n / 10);
        let s = dec_digits(n);
        assert(s =~= dec_digits(n / 10).push((n % 10 + 0x30) as u8));
        assert(s.drop_last() =~= dec_digits(n / 10));
        assert(s.last() == (n % 10 + 0x30) as u8);
        assert(dec_value(s) == dec_value(dec_digits(n / 10)) * 10 + s.last() - 0x30);
        assert(dec_value(s) == (n / 10) * 10 + n % 10);
        vstd::arithmetic::div_mod::lemma_fundamental_div_mod(n as int, 10);
        assert((n / 10) * 10 + n % 10 == n);
    }
}

/// The status line and the header name, up to where the decimal length goes:
/// `HTTP/1.1 200 OK\r\nContent-Length: `.
pub open spec fn header_prefix() -> Seq<u8> {
    seq![
        0x48, 0x54, 0x54, 0x50, 0x2f, 0x31, 0x2e, 0x31, 0x20,
        0x32, 0x30, 0x30, 0x20, 0x4f, 0x4b, 0x0d, 0x0a,
        0x43, 0x6f, 0x6e, 0x74, 0x65, 0x6e, 0x74, 0x2d,
        0x4c, 0x65, 0x6e, 0x67, 0x74, 0x68, 0x3a, 0x20,
    ]
}

/// The end of the header section: the line break after the length and the
/// blank line before the body.
pub open spec fn header_end() -> Seq<u8> {
    seq![0x0d, 0x0a, 0x0d, 0x0a]
}

/// The whole response for `body`:
/// `HTTP/1.1 200 OK\r\nContent-Length: <body.len()>\r\n\r\n<body>`.
pub open spec fn response_bytes(body: Seq<u8>) -> Seq<u8> {
    header_prefix() + dec_digits(body.len()) + header_end() + body
}

/// Round trip between a body and the response built for it: the response is
/// the header followed by the body, the `Content-Length` field denotes
/// exactly the body's length, and the bytes after the blank line are exactly
/// the body, byte for byte.
pub proof fn lemma_content_length_round_trip(body: Seq<u8>)
    ensures
        ({
            let r = response_bytes(body);
            let digits = dec_digits(body.len());
            let header_len = header_prefix().len() + digits.len() + header_end().len();
            &&& r.len() == header_len + body.len()
            &&& dec_value(
                r.subrange(
                    header_prefix().len() as int,
                    (header_prefix().len() + digits.len()) as int,
                ),
            ) == body.len()
            &&& r.subrange(header_len as int, r.len() as int) == body
        }),
{
    lemma_dec_round_trip(body.len());
    let r = response_bytes(body);
    let digits = dec_digits(body.len());
    let header_len = header_prefix().len() + digits.len() + header_end().len();
    assert(r.subrange(header_prefix().len() as int, (header_prefix().len() + digits.len()) as int)
        =~= digits);
    assert(r.subrange(header_len as int, r.len() as int) =~= body);
}

/// The decimal digit bytes of `n`, most significant first.
pub fn dec_digits_of(n: usize) -> (r: Vec<u8>)
    ensures
        r@ == dec_digits(n as nat),
    decreases n,
{
    if n < 10 {
        let mut r: Vec<u8> = Vec::new();
        r.push((n as u8) + 0x30);
        proof {
            assert(r@ =~= dec_digits(n as nat));
        }
        r
    } else {
        let mut r = dec_digits_of(n / 10);
        r.push(((n % 10) as u8) + 0x30);
        r
    }
}

/// The full response message for `body`.
pub fn build_response(body: &Vec<u8>) -> (r: Vec<u8>)
    ensures
        r@ == response_bytes(body@),
{
    let mut r: Vec<u8> = Vec::new();
    r.push(0x48);
    r.push(0x54);
    r.push(0x54);
    r.push(0x50);
    r.push(0x2f);
    r.push(0x31);
    r.push(0x2e);
    r.push(0x31);
    r.push(0x20);
    r.push(0x32);
    r.push(0x30);
    r.push(0x30);
    r.push(0x20);
    r.push(0x4f);
    r.push(0x4b);
    r.push(0x0d);
    r.push(0x0a);
    r.push(0x43);
    r.push(0x6f);
    r.push(0x6e);
    r.push(0x74);
    r.push(0x65);
    r.push(0x6e);
    r.push(0x74);
    r.push(0x2d);
    r.push(0x4c);
    r.push(0x65);
    r.push(0x6e);
    r.push(0x67);
    r.push(0x74);
    r.push(0x68);
    r.push(0x3a);
    r.push(0x20);
    proof {
        assert(r@ =~= header_prefix());
    }
    let mut digits = dec_digits_of(body.len());
    r.append(&mut digits);
    r.push(0x0d);
    r.push(0x0a);
    r.push(0x0d);
    r.push(0x0a);
    proof {
        assert(r@ =~= header_prefix() + dec_digits(body@.len()) + header_end());
    }
    let mut i: usize = 0;
    while i < body.len()
        invariant
            0 <= i <= body@.len(),
            r@ == header_prefix() + dec_digits(body@.len()) + header_end() + body@.subrange(
                0,
                i as int,
            ),
        decreases body@.len() - i,
    {
        r.push(body[i]);
        i = i + 1;
        proof {
            assert(r@ =~= header_prefix() + dec_digits(body@.len()) + header_end()
                + body@.subrange(0, i as int));
        }
    }
    proof {
        assert(body@.subrange(0, body@.len() as int) =~= body@);
    }
    r
}

} // verus!
