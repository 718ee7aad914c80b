//! Byte-level helpers for the proxy: spotting the stream-end sentinel in a
//! forwarded chunk, and collapsing invalid upstream status codes.

use vstd::prelude::*;

verus! {

/// The 12-byte ASCII stream-end sentinel `data: [DONE]`.
pub open spec fn spec_done_sentinel() -> Seq<u8> {
    seq![100u8, 97u8, 116u8, 97u8, 58u8, 32u8, 91u8, 68u8, 79u8, 78u8, 69u8, 93u8]
}

/// The stream-end sentinel `data: [DONE]`, as bytes.
pub fn done_sentinel() -> (r: Vec<u8>)
    ensures
        r@ == spec_done_sentinel(),
{
    let r = vec![100u8, 97u8, 116u8, 97u8, 58u8, 32u8, 91u8, 68u8, 79u8, 78u8, 69u8, 93u8];
    proof {
        assert(r@ =~= spec_done_sentinel());
    }
    r
}

/// The sentinel occurs somewhere in `s`.
pub open spec fn spec_contains_done(s: Seq<u8>) -> bool {
    exists|i: int|
        0 <= i && i + 12 <= s.len() && (#[trigger] s.subrange(i, i + 12)) == spec_done_sentinel()
}

/// True when the stream-end sentinel `data: [DONE]` occurs anywhere in the
/// chunk.
#[verifier::loop_isolation(false)]
pub fn contains_done_sentinel(chunk: &Vec<u8>) -> (r: bool)
    ensures
        r == spec_contains_done(chunk@),
{
    let pat = done_sentinel();
    if chunk.len() < 12 {
        return false;
    }
    let mut i: usize = 0;
    while i <= chunk.len() - 12
        invariant
            forall|q: int|
                0 <= q < i ==> (#[trigger] chunk@.subrange(q, q + 12)) != spec_done_sentinel(),
        decreases chunk@.len() - i,
    {
        let mut j: usize = 0;
        let mut all: bool = true;
        while j < 12
            invariant
                j <= 12,
                i + 12 <= chunk@.len(),
                all ==> forall|q: int| 0 <= q < j ==> chunk@[i + q] == spec_done_sentinel()[q],
                !all ==> chunk@.subrange(i as int, i + 12) != spec_done_sentinel(),
            decreases 12 - j,
        {
            if chunk[i + j] != pat[j] {
                proof {
                    assert(chunk@.subrange(i as int, i + 12)[j as int] == chunk@[i + j]);
                }
                all = false;
                j = 12;
            } else {
                j += 1;
            }
        }
        if all {
            proof {
                assert(chunk@.subrange(i as int, i + 12) =~= spec_done_sentinel());
            }
            return true;
        }
        i += 1;
    }
    proof {
        if spec_contains_done(chunk@) {
            let q = choose|q: int|
                0 <= q && q + 12 <= chunk@.len() && (#[trigger] chunk@.subrange(q, q + 12))
                    == spec_done_sentinel();
            assert(q < i);
            assert(false);
        }
    }
    false
}

/// Upstream status codes outside the valid HTTP range collapse to an
/// internal server error on the way out.
pub const INTERNAL_SERVER_ERROR: u16 = 500;

/// Maps an upstream status code to the status sent back to the client:
/// codes in the valid HTTP range pass through, anything else collapses to
/// an internal server error.
pub fn map_status_code(upstream: u16) -> (r: u16)
    ensures
        100 <= upstream < 1000 ==> r == upstream,
        !(100 <= upstream < 1000) ==> r == INTERNAL_SERVER_ERROR,
{
    if 100 <= upstream && upstream < 1000 {
        upstream
    } else {
        INTERNAL_SERVER_ERROR
    }
}

} // verus!
