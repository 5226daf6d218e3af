//! The order of chords. A chord is the sequence of sensor ids in the order in
//! which they were activated; chords are compared id by id, and a chord comes
//! before each of its extensions.

use vstd::prelude::*;

verus! {

/// Whether `a` comes strictly before `b`.
pub open spec fn precedes(a: Seq<usize>, b: Seq<usize>) -> bool
    decreases a.len(),
{
    if b.len() == 0 {
        false
    } else if a.len() == 0 {
        true
    } else if a[0] != b[0] {
        a[0] < b[0]
    } else {
        precedes(a.drop_first(), b.drop_first())
    }
}

/// The chord that follows every extension of `chord` and nothing else that
/// follows `chord`: its last id is raised by one.
pub open spec fn successor(chord: Seq<usize>) -> Seq<usize>
    recommends
        chord.len() > 0,
        chord.last() < usize::MAX,
{
    chord.drop_last().push((chord.last() + 1) as usize)
}

/// The bounds of a range of chords: from `lower` on, and below `upper` where
/// there is one.
pub struct ChordRange {
    pub lower: Seq<usize>,
    pub upper: Option<Seq<usize>>,
}

impl ChordRange {
    pub open spec fn contains(self, chord: Seq<usize>) -> bool {
        &&& !precedes(chord, self.lower)
        &&& self.upper matches Some(upper) ==> precedes(chord, upper)
    }
}

/// The range in which the extensions of `prefix` are looked for: it starts at
/// `prefix` and ends before its successor. Where `prefix` is empty, or its
/// last id is the largest there is, the range has no end.
pub open spec fn extension_range(prefix: Seq<usize>) -> ChordRange {
    ChordRange {
        lower: prefix,
        upper: if prefix.len() > 0 && prefix.last() < usize::MAX {
            Some(successor(prefix))
        } else {
            None
        },
    }
}

/// No chord comes before itself.
pub proof fn lemma_precedes_irreflexive(a: Seq<usize>)
    ensures
        !precedes(a, a),
    decreases a.len(),
{
    if a.len() > 0 {
        lemma_precedes_irreflexive(a.drop_first());
    }
}

/// Of two different chords one comes before the other.
pub proof fn lemma_precedes_total(a: Seq<usize>, b: Seq<usize>)
    ensures
        precedes(a, b) || precedes(b, a) || a == b,
    decreases a.len(),
{
    if a.len() == 0 || b.len() == 0 {
        if a.len() == 0 && b.len() == 0 {
            assert(a =~= b);
        }
    } else if a[0] == b[0] {
        lemma_precedes_total(a.drop_first(), b.drop_first());
        if a.drop_first() == b.drop_first() {
            assert(a =~= seq![a[0]] + a.drop_first());
            assert(b =~= seq![b[0]] + b.drop_first());
        }
    }
}

/// The order is transitive.
pub proof fn lemma_precedes_transitive(a: Seq<usize>, b: Seq<usize>, c: Seq<usize>)
    requires
        precedes(a, b),
        precedes(b, c),
    ensures
        precedes(a, c),
    decreases a.len(),
{
    if a.len() > 0 && a[0] == b[0] && b[0] == c[0] {
        lemma_precedes_transitive(a.drop_first(), b.drop_first(), c.drop_first());
    }
}

/// A chord does not come before any of its prefixes.
pub proof fn lemma_prefix_not_after(prefix: Seq<usize>, chord: Seq<usize>)
    requires
        prefix.is_prefix_of(chord),
    ensures
        !precedes(chord, prefix),
    decreases prefix.len(),
{
    if prefix.len() > 0 {
        assert(chord[0] == chord.subrange(0, prefix.len() as int)[0]);
        assert(prefix.drop_first() =~= chord.drop_first().subrange(0, prefix.len() - 1));
        lemma_prefix_not_after(prefix.drop_first(), chord.drop_first());
    }
}

/// Where a prefix has a successor, the chords from the prefix on and below
/// the successor are the extensions of the prefix, and no others.
pub proof fn lemma_extensions_fill_range(prefix: Seq<usize>, chord: Seq<usize>)
    requires
        prefix.len() > 0,
        prefix.last() < usize::MAX,
    ensures
        prefix.is_prefix_of(chord) <==> !precedes(chord, prefix) && precedes(
            chord,
            successor(prefix),
        ),
    decreases prefix.len(),
{
    let next = successor(prefix);
    let n = prefix.len() as int;
    assert(next.len() == n);
    assert(next[n - 1] == prefix[n - 1] + 1);
    assert(forall|k: int| 0 <= k < n - 1 ==> next[k] == prefix[k]);
    if chord.len() == 0 {
        assert(precedes(chord, prefix));
    } else if n == 1 {
        assert(next.drop_first().len() == 0);
        assert(prefix.drop_first().len() == 0);
        if chord[0] == prefix[0] {
            assert(prefix =~= chord.subrange(0, 1));
            assert(!precedes(chord.drop_first(), prefix.drop_first()));
        } else {
            if prefix.is_prefix_of(chord) {
                assert(chord.subrange(0, 1)[0] == chord[0]);
            }
            assert(!precedes(chord.drop_first(), next.drop_first()));
        }
    } else {
        let rest = prefix.drop_first();
        let tail = chord.drop_first();
        assert(rest.last() == prefix.last());
        assert(successor(rest) =~= next.drop_first());
        if chord[0] == prefix[0] {
            lemma_extensions_fill_range(rest, tail);
            if rest.is_prefix_of(tail) {
                assert forall|k: int| 0 <= k < n implies prefix[k] == chord[k] by {
                    if k > 0 {
                        assert(rest[k - 1] == tail.subrange(0, n - 1)[k - 1]);
                    }
                }
                assert(prefix =~= chord.subrange(0, n));
            }
            if prefix.is_prefix_of(chord) {
                assert forall|k: int| 0 <= k < n - 1 implies rest[k] == tail[k] by {
                    assert(prefix[k + 1] == chord.subrange(0, n)[k + 1]);
                }
                assert(rest =~= tail.subrange(0, n - 1));
            }
        } else if prefix.is_prefix_of(chord) {
            assert(chord.subrange(0, n)[0] == chord[0]);
        }
    }
}

/// Every extension of a prefix lies in the range in which extensions are
/// looked for; where the prefix has a successor, or is empty, nothing else
/// does.
pub proof fn lemma_extension_range(prefix: Seq<usize>, chord: Seq<usize>)
    ensures
        prefix.is_prefix_of(chord) ==> extension_range(prefix).contains(chord),
        prefix.len() == 0 || prefix.last() < usize::MAX ==> (extension_range(prefix).contains(
            chord,
        ) <==> prefix.is_prefix_of(chord)),
{
    if prefix.len() == 0 {
        assert(prefix =~= chord.subrange(0, 0));
    } else if prefix.last() < usize::MAX {
        lemma_extensions_fill_range(prefix, chord);
    } else if prefix.is_prefix_of(chord) {
        lemma_prefix_not_after(prefix, chord);
    }
}

/// Whether `a` comes strictly before `b`.
pub fn chord_precedes(a: &Vec<usize>, b: &Vec<usize>) -> (result: bool)
    ensures
        result == precedes(a@, b@),
{
    let mut i: usize = 0;
    assert(a@.skip(0) =~= a@ && b@.skip(0) =~= b@);
    loop
        invariant
            i <= a.len(),
            i <= b.len(),
            precedes(a@, b@) == precedes(a@.skip(i as int), b@.skip(i as int)),
        decreases a.len() - i,
    {
        if i == b.len() {
            return false;
        }
        if i == a.len() {
            return true;
        }
        if a[i] != b[i] {
            return a[i] < b[i];
        }
        proof {
            assert(a@.skip(i as int).drop_first() =~= a@.skip(i + 1));
            assert(b@.skip(i as int).drop_first() =~= b@.skip(i + 1));
        }
        i += 1;
    }
}

/// Whether two chords hold the same ids in the same order.
pub fn chord_equal(a: &Vec<usize>, b: &Vec<usize>) -> (result: bool)
    ensures
        result == (a@ == b@),
{
    if a.len() != b.len() {
        return false;
    }
    let mut i: usize = 0;
    while i < a.len()
        invariant
            i <= a.len(),
            a.len() == b.len(),
            forall|k: int| 0 <= k < i ==> a@[k] == b@[k],
        decreases a.len() - i,
    {
        if a[i] != b[i] {
            return false;
        }
        i += 1;
    }
    assert(a@ =~= b@);
    true
}

} // verus!
