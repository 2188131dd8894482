//! The carried protocol's two fixed byte strings and the delimiter search.
//!
//! The reactor itself is protocol-agnostic: it only needs to know when the
//! accumulated request bytes hold the request terminator, and which bytes to
//! send back. Both are fixed here: an empty-line terminator and a canned
//! response.

use vstd::prelude::*;

verus! {

/// The request terminator: an empty line, `\r\n\r\n`.
pub open spec fn delim() -> Seq<u8> {
    seq![13u8, 10u8, 13u8, 10u8]
}

/// The delimiter starts at position `i` of `s`.
pub open spec fn delim_at(s: Seq<u8>, i: int) -> bool {
    0 <= i && i + 4 <= s.len() && s.subrange(i, i + 4) == delim()
}

/// The accumulated bytes contain the request terminator somewhere.
pub open spec fn contains_delim(s: Seq<u8>) -> bool {
    exists|i: int| delim_at(s, i)
}

/// The canned response, `HTTP/1.1 200 OK\r\n<h1>200 Ok</h1>`, as bytes.
pub open spec fn response_spec() -> Seq<u8> {
    seq![
        72u8, 84u8, 84u8, 80u8, 47u8, 49u8, 46u8, 49u8, 32u8, 50u8, 48u8, 48u8, 32u8, 79u8,
        75u8, 13u8, 10u8, 60u8, 104u8, 49u8, 62u8, 50u8, 48u8, 48u8, 32u8, 79u8, 107u8, 60u8,
        47u8, 104u8, 49u8, 62u8,
    ]
}

/// The number of bytes of the canned response.
pub const RESPONSE_LEN: usize = 32;

/// The canned response as an owned byte vector.
pub fn response_bytes() -> (r: Vec<u8>)
    ensures
        r@ == response_spec(),
        r@.len() == RESPONSE_LEN,
{
    let mut r: Vec<u8> = Vec::new();
    r.push(72u8);
    r.push(84u8);
    r.push(84u8);
    r.push(80u8);
    r.push(47u8);
    r.push(49u8);
    r.push(46u8);
    r.push(49u8);
    r.push(32u8);
    r.push(50u8);
    r.push(48u8);
    r.push(48u8);
    r.push(32u8);
    r.push(79u8);
    r.push(75u8);
    r.push(13u8);
    r.push(10u8);
    r.push(60u8);
    r.push(104u8);
    r.push(49u8);
    r.push(62u8);
    r.push(50u8);
    r.push(48u8);
    r.push(48u8);
    r.push(32u8);
    r.push(79u8);
    r.push(107u8);
    r.push(60u8);
    r.push(47u8);
    r.push(104u8);
    r.push(49u8);
    r.push(62u8);
    proof {
        assert(r@ =~= response_spec());
    }
    r
}

/// Decide whether the accumulated request bytes hold the terminator.
pub fn is_done_reading(buf: &Vec<u8>) -> (r: bool)
    ensures
        r == contains_delim(buf@),
{
    if buf.len() < 4 {
        proof {
            assert(forall|i: int| !delim_at(buf@, i));
        }
        return false;
    }
    let mut i: usize = 0;
    while i <= buf.len() - 4
        invariant
            buf@.len() >= 4,
            0 <= i <= buf@.len() - 3,
            forall|j: int| 0 <= j < i ==> !delim_at(buf@, j),
        decreases buf@.len() - i,
    {
        if buf[i] == 13u8 && buf[i + 1] == 10u8 && buf[i + 2] == 13u8 && buf[i + 3] == 10u8 {
            proof {
                assert(buf@.subrange(i as int, i + 4) =~= delim());
                assert(delim_at(buf@, i as int));
            }
            return true;
        }
        proof {
            if delim_at(buf@, i as int) {
                assert(buf@.subrange(i as int, i + 4)[0] == buf@[i as int]);
                assert(buf@.subrange(i as int, i + 4)[1] == buf@[i + 1]);
                assert(buf@.subrange(i as int, i + 4)[2] == buf@[i + 2]);
                assert(buf@.subrange(i as int, i + 4)[3] == buf@[i + 3]);
            }
        }
        i = i + 1;
    }
    proof {
        assert(forall|j: int| i <= j ==> !delim_at(buf@, j));
    }
    false
}

} // verus!
