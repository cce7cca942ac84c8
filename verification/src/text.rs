//! Character-level helpers for identifiers.

use vstd::prelude::*;
use vstd::std_specs::iter::IteratorSpec;

verus! {

/// The characters of `text`.
pub fn chars_of(text: &str) -> (chars: Vec<char>)
    ensures
        chars@ == text@,
{
    let mut chars: Vec<char> = Vec::new();
    for c in it: text.chars()
        invariant
            chars@ == it.seq().take(it.index() as int),
            it.seq() == text@,
    {
        chars.push(c);
    }
    chars
}

/// The position at which `needle` first occurs in `chars`.
pub fn first_index_of(chars: &Vec<char>, needle: char) -> (found: Option<usize>)
    ensures
        match found {
            Some(i) => chars@.index_of_first(needle) == Some(i as int),
            None => chars@.index_of_first(needle) is None,
        },
{
    let mut i: usize = 0;
    while i < chars.len()
        invariant
            i <= chars.len(),
            forall|j: int| 0 <= j < i ==> chars[j] != needle,
        decreases chars.len() - i,
    {
        if chars[i] == needle {
            proof {
                chars@.index_of_first_ensures(needle);
                assert(chars@.contains(needle));
            }
            return Some(i);
        }
        i += 1;
    }
    proof {
        chars@.index_of_first_ensures(needle);
    }
    None
}

/// Whether `chars` begins with `prefix` followed by `mark`.
pub fn begins_with_marked(chars: &Vec<char>, prefix: &Vec<char>, mark: char) -> (begins: bool)
    ensures
        begins == prefix@.push(mark).is_prefix_of(chars@),
{
    let n = prefix.len();
    if chars.len() <= n {
        return false;
    }
    let mut i: usize = 0;
    while i < n
        invariant
            i <= n,
            n == prefix.len(),
            n < chars.len(),
            forall|j: int| 0 <= j < i ==> chars[j] == prefix[j],
        decreases n - i,
    {
        if chars[i] != prefix[i] {
            proof {
                let head = prefix@.push(mark);
                if head.is_prefix_of(chars@) {
                    assert(chars@.subrange(0, head.len() as int)[i as int] == head[i as int]);
                }
            }
            return false;
        }
        i += 1;
    }
    proof {
        let head = prefix@.push(mark);
        if chars[n as int] == mark {
            assert(head =~= chars@.subrange(0, head.len() as int));
        } else {
            if head.is_prefix_of(chars@) {
                assert(chars@.subrange(0, head.len() as int)[n as int] == head[n as int]);
            }
        }
    }
    chars[n] == mark
}

/// Whether the two hold the same characters.
pub fn same_chars(a: &Vec<char>, b: &Vec<char>) -> (same: bool)
    ensures
        same == (a@ == b@),
{
    if a.len() != b.len() {
        return false;
    }
    let mut i: usize = 0;
    while i < a.len()
        invariant
            i <= a.len(),
            a.len() == b.len(),
            forall|j: int| 0 <= j < i ==> a[j] == b[j],
        decreases a.len() - i,
    {
        if a[i] != b[i] {
            return false;
        }
        i += 1;
    }
    proof {
        assert(a@ =~= b@);
    }
    true
}

/// Whether the two texts read the same.
pub fn same_text(a: &str, b: &str) -> (same: bool)
    ensures
        same == (a@ == b@),
{
    let left = chars_of(a);
    let right = chars_of(b);
    same_chars(&left, &right)
}

} // verus!
