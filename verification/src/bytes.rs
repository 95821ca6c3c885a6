//! Comparison of byte strings.
use vstd::prelude::*;

verus! {

/// The lexicographic order of byte strings: at the first difference the smaller byte decides,
/// and a proper prefix comes first.
pub open spec fn less(a: Seq<u8>, b: Seq<u8>) -> bool
    decreases a.len(),
{
    if b.len() == 0 {
        false
    } else if a.len() == 0 {
        true
    } else {
        a[0] < b[0] || (a[0] == b[0] && less(a.drop_first(), b.drop_first()))
    }
}

/// No byte string comes before itself.
pub proof fn less_irreflexive(a: Seq<u8>)
    ensures
        !less(a, a),
    decreases a.len(),
{
    if a.len() > 0 {
        less_irreflexive(a.drop_first());
    }
}

/// What comes before a second that comes before a third comes before the third.
pub proof fn less_transitive(a: Seq<u8>, b: Seq<u8>, c: Seq<u8>)
    requires
        less(a, b),
        less(b, c),
    ensures
        less(a, c),
    decreases a.len(),
{
    if a.len() > 0 && a[0] == b[0] && b[0] == c[0] {
        less_transitive(a.drop_first(), b.drop_first(), c.drop_first());
    }
}

/// Of two different byte strings one comes before the other.
pub proof fn less_total(a: Seq<u8>, b: Seq<u8>)
    ensures
        a == b || less(a, b) || less(b, a),
    decreases a.len(),
{
    if a.len() > 0 && b.len() > 0 && a[0] == b[0] {
        less_total(a.drop_first(), b.drop_first());
        if a.drop_first() == b.drop_first() {
            assert(a =~= seq![a[0]] + a.drop_first());
            assert(b =~= seq![b[0]] + b.drop_first());
        }
    } else if a.len() == 0 && b.len() == 0 {
        assert(a =~= b);
    }
}

/// What starts with `p` does not come before `p`.
pub proof fn prefix_comes_first(p: Seq<u8>, a: Seq<u8>)
    requires
        p.is_prefix_of(a),
    ensures
        !less(a, p),
    decreases p.len(),
{
    if p.len() > 0 {
        assert(a[0] == a.subrange(0, p.len() as int)[0]);
        assert(p.drop_first() =~= a.drop_first().subrange(0, p.len() - 1)) by {
            assert forall|i: int| 0 <= i < p.len() - 1 implies p.drop_first()[i] == a.drop_first()[i]
                by {
                assert(a.subrange(0, p.len() as int)[i + 1] == a[i + 1]);
            }
        }
        prefix_comes_first(p.drop_first(), a.drop_first());
    }
}

/// The byte strings that start with `p` stand side by side: behind one that comes after them
/// none follows.
pub proof fn prefix_block_ends(p: Seq<u8>, a: Seq<u8>, b: Seq<u8>)
    requires
        !less(a, p),
        !p.is_prefix_of(a),
        less(a, b),
    ensures
        !p.is_prefix_of(b),
    decreases p.len(),
{
    if p.len() == 0 {
        assert(p =~= a.subrange(0, 0));
    } else if p.is_prefix_of(b) {
        assert(b[0] == b.subrange(0, p.len() as int)[0]);
        let (p1, a1, b1) = (p.drop_first(), a.drop_first(), b.drop_first());
        assert(p1 =~= b1.subrange(0, p1.len() as int)) by {
            assert forall|i: int| 0 <= i < p1.len() implies p1[i] == b1[i] by {
                assert(b.subrange(0, p.len() as int)[i + 1] == b[i + 1]);
            }
        }
        if p1.is_prefix_of(a1) {
            assert(p =~= a.subrange(0, p.len() as int)) by {
                assert forall|i: int| 0 < i < p.len() implies p[i] == a[i] by {
                    assert(a1.subrange(0, p1.len() as int)[i - 1] == a1[i - 1]);
                }
            }
        }
        prefix_block_ends(p1, a1, b1);
    }
}

/// Whether `a` comes before `b`.
pub fn is_less(a: &[u8], b: &[u8]) -> (r: bool)
    ensures
        r == less(a@, b@),
{
    let mut i: usize = 0;
    assert(a@.skip(0) =~= a@);
    assert(b@.skip(0) =~= b@);
    while i < a.len() && i < b.len()
        invariant
            i <= a@.len(),
            i <= b@.len(),
            less(a@, b@) == less(a@.skip(i as int), b@.skip(i as int)),
        decreases a.len() - i,
    {
        let ghost x = a@.skip(i as int);
        let ghost y = b@.skip(i as int);
        assert(x[0] == a@[i as int]);
        assert(y[0] == b@[i as int]);
        if a[i] < b[i] {
            return true;
        }
        if b[i] < a[i] {
            return false;
        }
        assert(x.drop_first() =~= a@.skip(i + 1));
        assert(y.drop_first() =~= b@.skip(i + 1));
        i += 1;
    }
    i < b.len()
}

/// Whether two slices hold the same bytes.
pub fn same_bytes(a: &[u8], b: &[u8]) -> (r: bool)
    ensures
        r == (a@ == b@),
{
    if a.len() != b.len() {
        return false;
    }
    let mut i: usize = 0;
    while i < a.len()
        invariant
            a@.len() == b@.len(),
            i <= a@.len(),
            forall|j: int| 0 <= j < i ==> a@[j] == b@[j],
        decreases a.len() - i,
    {
        if a[i] != b[i] {
            return false;
        }
        i += 1;
    }
    assert(a@ =~= b@);
    true
}

/// Whether `s` starts with the bytes of `prefix`.
pub fn starts_with(s: &[u8], prefix: &[u8]) -> (r: bool)
    ensures
        r == prefix@.is_prefix_of(s@),
{
    if s.len() < prefix.len() {
        return false;
    }
    let mut i: usize = 0;
    while i < prefix.len()
        invariant
            prefix@.len() <= s@.len(),
            i <= prefix@.len(),
            forall|j: int| 0 <= j < i ==> prefix@[j] == s@[j],
        decreases prefix.len() - i,
    {
        if s[i] != prefix[i] {
            assert(s@.subrange(0, prefix@.len() as int)[i as int] == s@[i as int]);
            return false;
        }
        i += 1;
    }
    assert(prefix@ =~= s@.subrange(0, prefix@.len() as int));
    true
}

} // verus!
