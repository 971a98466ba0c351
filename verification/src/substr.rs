//! Substring containment on bytes.
//!
//! The dictionary tool decides a word's validity by whether the
//! upstream's answer carries its not-found marker: a plain substring
//! test, done here exactly.

use vstd::prelude::*;

verus! {

/// The needle occurs in the haystack starting at position `i`.
pub open spec fn match_at(h: Seq<u8>, n: Seq<u8>, i: int) -> bool {
    0 <= i && i + n.len() <= h.len() && h.subrange(i, i + n.len() as int) == n
}

/// The needle occurs somewhere in the haystack.
pub open spec fn contains_bytes_spec(h: Seq<u8>, n: Seq<u8>) -> bool {
    exists|i: int| match_at(h, n, i)
}

/// Whether the needle occurs at exactly the given position.
fn matches_at(haystack: &Vec<u8>, needle: &Vec<u8>, i: usize) -> (b: bool)
    requires
        i + needle@.len() <= haystack@.len(),
    ensures
        b == match_at(haystack@, needle@, i as int),
{
    let hl = haystack.len();
    let n = needle.len();
    let mut j: usize = 0;
    while j < n
        invariant
            hl == haystack@.len(),
            n == needle@.len(),
            i + n <= hl,
            j <= n,
            forall|k: int| 0 <= k < j ==> haystack@[i + k] == needle@[k],
        decreases n - j,
    {
        if haystack[i + j] != needle[j] {
            proof {
                assert(haystack@.subrange(i as int, i + n)[j as int] == haystack@[i + j]);
            }
            return false;
        }
        j += 1;
    }
    proof {
        assert(haystack@.subrange(i as int, i + n) =~= needle@);
    }
    true
}

/// Whether `needle` occurs as a contiguous run inside `haystack`.
pub fn contains_bytes(haystack: &Vec<u8>, needle: &Vec<u8>) -> (b: bool)
    ensures
        b == contains_bytes_spec(haystack@, needle@),
{
    let h = haystack.len();
    let n = needle.len();
    if n == 0 {
        proof {
            assert(haystack@.subrange(0, 0) =~= needle@);
            assert(match_at(haystack@, needle@, 0));
        }
        return true;
    }
    if n > h {
        proof {
            if contains_bytes_spec(haystack@, needle@) {
                let i = choose|i: int| match_at(haystack@, needle@, i);
            }
        }
        return false;
    }
    let mut i: usize = 0;
    while i <= h - n
        invariant
            h == haystack@.len(),
            n == needle@.len(),
            1 <= n <= h,
            i <= h - n + 1,
            forall|k: int| 0 <= k < i ==> !match_at(haystack@, needle@, k),
        decreases h - n + 1 - i,
    {
        if matches_at(haystack, needle, i) {
            return true;
        }
        i += 1;
    }
    proof {
        if contains_bytes_spec(haystack@, needle@) {
            let k = choose|k: int| match_at(haystack@, needle@, k);
            assert(k < i);
        }
    }
    false
}

/// The dictionary lookup's decision: the word is valid exactly when
/// the answer's body does not carry the not-found marker.
pub fn dictionary_outcome(word: String, body: &Vec<u8>, marker: &Vec<u8>) -> (r: Option<
    String,
>)
    ensures
        contains_bytes_spec(body@, marker@) ==> r is None,
        !contains_bytes_spec(body@, marker@) ==> r == Some(word),
{
    if contains_bytes(body, marker) {
        None
    } else {
        Some(word)
    }
}

} // verus!
