//! Names as byte strings: matching without regard to ASCII case, and the
//! white space around and within them.

use vstd::prelude::*;

verus! {

/// The lower-case form of an ASCII letter; any other byte is itself.
pub open spec fn lower(b: u8) -> u8 {
    if 0x41 <= b <= 0x5a {
        (b + 0x20) as u8
    } else {
        b
    }
}

/// `name` with every ASCII letter in lower case.
pub open spec fn fold(name: Seq<u8>) -> Seq<u8> {
    Seq::new(name.len(), |i: int| lower(name[i]))
}

/// True when the two names have the same length and differ at most in the
/// case of ASCII letters.
pub open spec fn eq_ignore_ascii_case(a: Seq<u8>, b: Seq<u8>) -> bool {
    &&& a.len() == b.len()
    &&& forall|i: int| 0 <= i < a.len() ==> lower(a[i]) == lower(b[i])
}

/// Two names are equal up to ASCII case exactly when their folded forms are
/// equal.
pub proof fn lemma_fold_decides_case_insensitive_equality(a: Seq<u8>, b: Seq<u8>)
    ensures
        eq_ignore_ascii_case(a, b) <==> fold(a) == fold(b),
{
    if eq_ignore_ascii_case(a, b) {
        assert(fold(a) =~= fold(b));
    }
    if fold(a) == fold(b) {
        assert(fold(a).len() == fold(b).len());
        assert forall|i: int| 0 <= i < a.len() implies lower(a[i]) == lower(b[i]) by {
            assert(fold(a)[i] == fold(b)[i]);
        }
    }
}

/// The lower-case form of an ASCII letter; any other byte is itself.
pub fn lower_byte(b: u8) -> (l: u8)
    ensures
        l == lower(b),
{
    if 0x41 <= b && b <= 0x5a {
        b + 0x20
    } else {
        b
    }
}

/// `name` with every ASCII letter in lower case.
pub fn fold_name(name: &[u8]) -> (key: Vec<u8>)
    ensures
        key@ == fold(name@),
{
    let mut key: Vec<u8> = Vec::new();
    let mut i: usize = 0;
    while i < name.len()
        invariant
            i <= name@.len(),
            key@.len() == i,
            forall|k: int| 0 <= k < i ==> key@[k] == lower(name@[k]),
        decreases name@.len() - i,
    {
        key.push(lower_byte(name[i]));
        i = i + 1;
    }
    assert(key@ =~= fold(name@));
    key
}

/// Tells whether `name`, folded, is `key`.
pub fn matches_key(name: &[u8], key: &[u8]) -> (b: bool)
    ensures
        b == (fold(name@) == key@),
{
    if name.len() != key.len() {
        assert(fold(name@).len() != key@.len());
        return false;
    }
    let mut i: usize = 0;
    while i < name.len()
        invariant
            i <= name@.len(),
            name@.len() == key@.len(),
            forall|k: int| 0 <= k < i ==> lower(name@[k]) == key@[k],
        decreases name@.len() - i,
    {
        if lower_byte(name[i]) != key[i] {
            assert(fold(name@)[i as int] != key@[i as int]);
            return false;
        }
        i = i + 1;
    }
    assert(fold(name@) =~= key@);
    true
}

/// Tells whether two byte strings are equal.
pub fn same_bytes(a: &[u8], b: &[u8]) -> (same: bool)
    ensures
        same == (a@ == b@),
{
    if a.len() != b.len() {
        assert(a@.len() != b@.len());
        return false;
    }
    let mut i: usize = 0;
    while i < a.len()
        invariant
            i <= a@.len(),
            a@.len() == b@.len(),
            forall|k: int| 0 <= k < i ==> a@[k] == b@[k],
        decreases a@.len() - i,
    {
        if a[i] != b[i] {
            return false;
        }
        i = i + 1;
    }
    assert(a@ =~= b@);
    true
}

/// True for the bytes that count as white space in a name.
pub open spec fn is_space(b: u8) -> bool {
    b == 0x20 || (0x09 <= b <= 0x0d)
}

/// `s` without the white space at its end.
pub open spec fn trim_end(s: Seq<u8>) -> Seq<u8>
    decreases s.len(),
{
    if s.len() > 0 && is_space(s.last()) {
        trim_end(s.drop_last())
    } else {
        s
    }
}

/// `s` without the white space at its start.
pub open spec fn trim_start(s: Seq<u8>) -> Seq<u8>
    decreases s.len(),
{
    if s.len() > 0 && is_space(s[0]) {
        trim_start(s.subrange(1, s.len() as int))
    } else {
        s
    }
}

/// `s` without the white space at its start and at its end.
pub open spec fn trim(s: Seq<u8>) -> Seq<u8> {
    trim_start(trim_end(s))
}

/// Tells whether `b` counts as white space in a name.
pub fn is_space_byte(b: u8) -> (r: bool)
    ensures
        r == is_space(b),
{
    b == 0x20 || (0x09 <= b && b <= 0x0d)
}

/// `s` without the white space at its start and at its end.
pub fn trim_bytes(s: &[u8]) -> (t: Vec<u8>)
    ensures
        t@ == trim(s@),
{
    let mut end: usize = s.len();
    assert(s@.subrange(0, end as int) =~= s@);
    while end > 0 && is_space_byte(s[end - 1])
        invariant
            end <= s@.len(),
            trim_end(s@) == trim_end(s@.subrange(0, end as int)),
        decreases end,
    {
        assert(s@.subrange(0, end as int).drop_last() =~= s@.subrange(0, end - 1));
        end = end - 1;
    }
    let ghost kept = s@.subrange(0, end as int);
    assert(trim_end(s@) == kept);
    let mut start: usize = 0;
    assert(kept.subrange(0, end as int) =~= kept);
    while start < end && is_space_byte(s[start])
        invariant
            start <= end <= s@.len(),
            kept == s@.subrange(0, end as int),
            trim_start(kept) == trim_start(kept.subrange(start as int, end as int)),
        decreases end - start,
    {
        assert(kept.subrange(start as int, end as int).subrange(1, end - start) =~= kept.subrange(
            start + 1,
            end as int,
        ));
        start = start + 1;
    }
    assert(trim_start(kept) == kept.subrange(start as int, end as int));
    let mut t: Vec<u8> = Vec::new();
    let mut i: usize = start;
    while i < end
        invariant
            start <= i <= end <= s@.len(),
            t@ == s@.subrange(start as int, i as int),
        decreases end - i,
    {
        t.push(s[i]);
        i = i + 1;
        assert(t@ =~= s@.subrange(start as int, i as int));
    }
    assert(s@.subrange(start as int, end as int) =~= kept.subrange(start as int, end as int));
    t
}

/// `s` without any white space.
pub open spec fn without_whitespace(s: Seq<u8>) -> Seq<u8> {
    s.filter(|b: u8| !is_space(b))
}

} // verus!
