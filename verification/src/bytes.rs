//! Byte-sequence primitives shared by the input decoders.
use vstd::prelude::*;

verus! {

/// `prefix` stands at the front of `s`.
pub open spec fn has_prefix(s: Seq<u8>, prefix: Seq<u8>) -> bool {
    prefix.len() <= s.len() && s.subrange(0, prefix.len() as int) == prefix
}

/// `needle` stands in `s` at offset `at`.
pub open spec fn occurs_at(s: Seq<u8>, needle: Seq<u8>, at: int) -> bool {
    0 <= at && at + needle.len() <= s.len() && s.subrange(at, at + needle.len()) == needle
}

/// The least offset at or after `from` where `needle` stands in `s`.
pub open spec fn find_from(s: Seq<u8>, needle: Seq<u8>, from: int) -> Option<int>
    decreases s.len() - from,
{
    if from < 0 || from + needle.len() > s.len() {
        None
    } else if occurs_at(s, needle, from) {
        Some(from)
    } else if from < s.len() {
        find_from(s, needle, from + 1)
    } else {
        None
    }
}

/// What `find_from` answers, said without recursion.
pub proof fn lemma_find_from(s: Seq<u8>, needle: Seq<u8>, from: int)
    requires
        0 <= from,
        needle.len() > 0,
    ensures
        match find_from(s, needle, from) {
            Some(at) => {
                &&& from <= at
                &&& occurs_at(s, needle, at)
                &&& forall|j: int| from <= j < at ==> !#[trigger] occurs_at(s, needle, j)
            },
            None => forall|j: int| from <= j ==> !#[trigger] occurs_at(s, needle, j),
        },
    decreases s.len() - from,
{
    if from + needle.len() <= s.len() && !occurs_at(s, needle, from) {
        lemma_find_from(s, needle, from + 1);
    }
}

/// An offset with the properties of the least occurrence is the one `find_from` answers.
pub proof fn lemma_find_from_is(s: Seq<u8>, needle: Seq<u8>, from: int, at: int)
    requires
        0 <= from <= at,
        needle.len() > 0,
        occurs_at(s, needle, at),
        forall|j: int| from <= j < at ==> !#[trigger] occurs_at(s, needle, j),
    ensures
        find_from(s, needle, from) == Some(at),
{
    lemma_find_from(s, needle, from);
}

/// Searching may start anywhere up to the first occurrence.
pub proof fn lemma_find_from_skip(s: Seq<u8>, needle: Seq<u8>, from: int, later: int)
    requires
        0 <= from <= later,
        needle.len() > 0,
        forall|j: int| from <= j < later ==> !#[trigger] occurs_at(s, needle, j),
    ensures
        find_from(s, needle, from) == find_from(s, needle, later),
{
    lemma_find_from(s, needle, from);
    lemma_find_from(s, needle, later);
}

/// Compares `prefix` with the front of `input`.
pub fn starts_with(input: &[u8], prefix: &[u8]) -> (found: bool)
    ensures
        found == has_prefix(input@, prefix@),
{
    matches_at(input, prefix, 0)
}

/// Compares `needle` with the bytes of `input` that begin at `at`.
pub fn matches_at(input: &[u8], needle: &[u8], at: usize) -> (found: bool)
    ensures
        found == occurs_at(input@, needle@, at as int),
{
    if at > input.len() || needle.len() > input.len() - at {
        return false;
    }
    let mut i: usize = 0;
    while i < needle.len()
        invariant
            i <= needle.len(),
            at + needle.len() <= input.len(),
            forall|k: int| 0 <= k < i ==> input@[at + k] == needle@[k],
        decreases needle.len() - i,
    {
        if input[at + i] != needle[i] {
            assert(input@.subrange(at as int, at + needle@.len())[i as int] != needle@[i as int]);
            return false;
        }
        i = i + 1;
    }
    assert(input@.subrange(at as int, at + needle@.len()) =~= needle@);
    true
}

/// The least offset of `needle` in `haystack`.
pub fn find_subslice(haystack: &[u8], needle: &[u8]) -> (at: Option<usize>)
    requires
        needle@.len() > 0,
    ensures
        match at {
            Some(at) => find_from(haystack@, needle@, 0) == Some(at as int),
            None => find_from(haystack@, needle@, 0) is None,
        },
{
    find_subslice_from(haystack, needle, 0)
}

/// The least offset of `needle` in `haystack` at or after `from`.
pub fn find_subslice_from(haystack: &[u8], needle: &[u8], from: usize) -> (at: Option<usize>)
    requires
        needle@.len() > 0,
    ensures
        match at {
            Some(at) => find_from(haystack@, needle@, from as int) == Some(at as int),
            None => find_from(haystack@, needle@, from as int) is None,
        },
{
    let mut i: usize = from;
    while i < haystack.len()
        invariant
            from <= i,
            needle@.len() > 0,
            find_from(haystack@, needle@, from as int) == find_from(haystack@, needle@, i as int),
        decreases haystack.len() - i,
    {
        if matches_at(haystack, needle, i) {
            return Some(i);
        }
        if needle.len() > haystack.len() - i {
            return None;
        }
        i = i + 1;
    }
    None
}

/// A copy of `input[from..to]`.
pub fn copy_range(input: &[u8], from: usize, to: usize) -> (out: Vec<u8>)
    requires
        from <= to <= input@.len(),
    ensures
        out@ == input@.subrange(from as int, to as int),
{
    let mut out: Vec<u8> = Vec::new();
    let mut i: usize = from;
    while i < to
        invariant
            from <= i <= to <= input@.len(),
            out@ == input@.subrange(from as int, i as int),
        decreases to - i,
    {
        out.push(input[i]);
        i = i + 1;
        assert(out@ =~= input@.subrange(from as int, i as int));
    }
    out
}

/// Appends `bytes` to `out`.
pub fn push_all(out: &mut Vec<u8>, bytes: &[u8])
    ensures
        final(out)@ == old(out)@ + bytes@,
{
    let mut i: usize = 0;
    while i < bytes.len()
        invariant
            i <= bytes@.len(),
            out@ == old(out)@ + bytes@.subrange(0, i as int),
        decreases bytes.len() - i,
    {
        out.push(bytes[i]);
        i = i + 1;
        assert(out@ =~= old(out)@ + bytes@.subrange(0, i as int));
    }
    assert(bytes@.subrange(0, i as int) =~= bytes@);
}

} // verus!
