//! Looking for a string in a text.
use vstd::prelude::*;
use crate::text::chars_of;

verus! {

/// The error returned when a text does not hold the string looked for.
#[derive(Debug)]
pub struct NotFound;

/// `n` occurs in `h`.
pub open spec fn contains_seq(h: Seq<char>, n: Seq<char>) -> bool {
    exists|p: int| 0 <= p && p + n.len() <= h.len() && #[trigger] h.subrange(p, p + n.len()) == n
}

/// Whether `n` occurs at position `at` of `h[..hi]`.
fn occurs_at(h: &Vec<char>, at: usize, hi: usize, n: &Vec<char>) -> (r: bool)
    requires
        at <= hi <= h@.len(),
        hi - at >= n@.len(),
    ensures
        r == (h@.subrange(at as int, at + n@.len()) == n@),
{
    let mut k: usize = 0;
    while k < n.len()
        invariant
            at <= hi <= h@.len(),
            hi - at >= n@.len(),
            k <= n@.len(),
            forall|j: int| 0 <= j < k ==> h@[at + j] == n@[j],
        decreases n@.len() - k,
    {
        if h[at + k] != n[k] {
            assert(h@.subrange(at as int, at + n@.len())[k as int] != n@[k as int]);
            return false;
        }
        k = k + 1;
    }
    assert(h@.subrange(at as int, at + n@.len()) =~= n@);
    true
}

/// Whether `n` occurs in `h[lo..hi]`.
fn occurs_in(h: &Vec<char>, lo: usize, hi: usize, n: &Vec<char>) -> (r: bool)
    requires
        lo <= hi <= h@.len(),
    ensures
        r == contains_seq(h@.subrange(lo as int, hi as int), n@),
{
    let ghost line = h@.subrange(lo as int, hi as int);
    if hi - lo < n.len() {
        return false;
    }
    let last = hi - n.len();
    let mut p = lo;
    loop
        invariant
            lo <= p <= last,
            last + n@.len() == hi,
            lo <= hi <= h@.len(),
            line == h@.subrange(lo as int, hi as int),
            forall|q: int|
                0 <= q < p - lo ==> #[trigger] line.subrange(q, q + n@.len()) != n@,
        decreases last - p,
    {
        assert(line.subrange(p - lo, p - lo + n@.len()) =~= h@.subrange(
            p as int,
            p + n@.len(),
        ));
        if occurs_at(h, p, hi, n) {
            return true;
        }
        if p == last {
            assert forall|q: int|
                0 <= q && q + n@.len() <= line.len() implies #[trigger] line.subrange(
                q,
                q + n@.len(),
            ) != n@ by {
                assert(q <= p - lo);
            }
            return false;
        }
        p = p + 1;
    }
}

/// Checks whether `input` is present in `text`.
pub fn find_str_in_text(input: &str, text: &str) -> (r: Result<(), NotFound>)
    ensures
        r is Ok <==> contains_seq(text@, input@),
{
    let t = chars_of(text);
    let n = chars_of(input);
    proof {
        assert(t@.subrange(0, t@.len() as int) =~= t@);
    }
    if occurs_in(&t, 0, t.len(), &n) {
        Ok(())
    } else {
        Err(NotFound)
    }
}

} // verus!
