//! The scheme: the chords that mean something, each with what it does, kept
//! in the order of chords.

use super::chord::{
    chord_equal, chord_precedes, lemma_precedes_irreflexive, lemma_precedes_total,
    lemma_precedes_transitive, precedes, ChordRange,
};
use super::{Input, InputModel};
use vstd::prelude::*;

verus! {

/// One entry of the scheme.
#[derive(Debug)]
pub struct Binding {
    pub chord: Vec<usize>,
    pub action: Input,
}

impl View for Binding {
    type V = (Seq<usize>, InputModel);

    open spec fn view(&self) -> (Seq<usize>, InputModel) {
        (self.chord@, self.action@)
    }
}

/// Whether the chords of `entries` stand in strictly rising order.
pub open spec fn rising(entries: Seq<(Seq<usize>, InputModel)>) -> bool {
    forall|i: int, j: int|
        0 <= i < j < entries.len() ==> precedes(#[trigger] entries[i].0, #[trigger] entries[j].0)
}

/// What `chord` does in `entries`, if it stands there.
pub open spec fn bound_to(entries: Seq<(Seq<usize>, InputModel)>, chord: Seq<usize>) -> Option<
    InputModel,
> {
    if exists|i: int| 0 <= i < entries.len() && #[trigger] entries[i].0 == chord {
        let i = choose|i: int| 0 <= i < entries.len() && #[trigger] entries[i].0 == chord;
        Some(entries[i].1)
    } else {
        None
    }
}

/// In entries that stand in rising order, each chord does what its entry
/// says.
pub proof fn lemma_bound_to_entry(entries: Seq<(Seq<usize>, InputModel)>, place: int)
    requires
        rising(entries),
        0 <= place < entries.len(),
    ensures
        bound_to(entries, entries[place].0) == Some(entries[place].1),
{
    let chord = entries[place].0;
    let found = choose|i: int| 0 <= i < entries.len() && #[trigger] entries[i].0 == chord;
    lemma_precedes_irreflexive(chord);
    if found < place {
        assert(precedes(entries[found].0, entries[place].0));
    } else if place < found {
        assert(precedes(entries[place].0, entries[found].0));
    }
}

/// Putting in an entry with a new chord binds that chord, and leaves every
/// other chord as it was.
pub proof fn lemma_bound_to_insert(
    entries: Seq<(Seq<usize>, InputModel)>,
    place: int,
    entry: (Seq<usize>, InputModel),
    chord: Seq<usize>,
)
    requires
        rising(entries),
        0 <= place <= entries.len(),
        rising(entries.insert(place, entry)),
        bound_to(entries, entry.0) is None,
    ensures
        bound_to(entries.insert(place, entry), chord) == if chord == entry.0 {
            Some(entry.1)
        } else {
            bound_to(entries, chord)
        },
{
    let grown = entries.insert(place, entry);
    if chord == entry.0 {
        lemma_bound_to_entry(grown, place);
    } else if bound_to(entries, chord) is Some {
        let i = choose|i: int| 0 <= i < entries.len() && #[trigger] entries[i].0 == chord;
        lemma_bound_to_entry(entries, i);
        let moved = if i < place {
            i
        } else {
            i + 1
        };
        assert(grown[moved] == entries[i]);
        lemma_bound_to_entry(grown, moved);
    } else {
        assert forall|i: int| 0 <= i < grown.len() implies #[trigger] grown[i].0 != chord by {
            if i < place {
                assert(grown[i] == entries[i]);
            } else if i > place {
                assert(grown[i] == entries[i - 1]);
            }
        }
    }
}

/// What the entries with a chord in `range` do, in the order of `entries`.
pub open spec fn actions_within(
    entries: Seq<(Seq<usize>, InputModel)>,
    range: ChordRange,
) -> Seq<InputModel>
    decreases entries.len(),
{
    if entries.len() == 0 {
        Seq::empty()
    } else if range.contains(entries.last().0) {
        actions_within(entries.drop_last(), range).push(entries.last().1)
    } else {
        actions_within(entries.drop_last(), range)
    }
}

/// `actions_within` goes through two parts one after the other.
pub proof fn lemma_actions_within_concat(
    front: Seq<(Seq<usize>, InputModel)>,
    back: Seq<(Seq<usize>, InputModel)>,
    range: ChordRange,
)
    ensures
        actions_within(front + back, range) == actions_within(front, range) + actions_within(
            back,
            range,
        ),
    decreases back.len(),
{
    if back.len() == 0 {
        assert(front + back =~= front);
        assert(actions_within(front, range) + Seq::<InputModel>::empty() =~= actions_within(
            front,
            range,
        ));
    } else {
        assert((front + back).drop_last() =~= front + back.drop_last());
        assert((front + back).last() == back.last());
        lemma_actions_within_concat(front, back.drop_last(), range);
        if range.contains(back.last().0) {
            assert((actions_within(front, range) + actions_within(back.drop_last(), range)).push(
                back.last().1,
            ) =~= actions_within(front, range) + actions_within(back.drop_last(), range).push(
                back.last().1,
            ));
        }
    }
}

/// Entries that all lie outside a range do nothing within it.
pub proof fn lemma_actions_within_none(entries: Seq<(Seq<usize>, InputModel)>, range: ChordRange)
    requires
        forall|i: int| 0 <= i < entries.len() ==> !range.contains(#[trigger] entries[i].0),
    ensures
        actions_within(entries, range) == Seq::<InputModel>::empty(),
    decreases entries.len(),
{
    if entries.len() > 0 {
        lemma_actions_within_none(entries.drop_last(), range);
    }
}

/// Of entries that all lie in a range, each one is listed.
pub proof fn lemma_actions_within_all(entries: Seq<(Seq<usize>, InputModel)>, range: ChordRange)
    requires
        forall|i: int| 0 <= i < entries.len() ==> range.contains(#[trigger] entries[i].0),
    ensures
        actions_within(entries, range).len() == entries.len(),
        forall|i: int|
            0 <= i < entries.len() ==> #[trigger] actions_within(entries, range)[i]
                == entries[i].1,
    decreases entries.len(),
{
    if entries.len() > 0 {
        lemma_actions_within_all(entries.drop_last(), range);
    }
}

/// The chords that mean something, each with what it does.
#[derive(Debug)]
pub struct InputScheme {
    bindings: Vec<Binding>,
}

impl View for InputScheme {
    type V = Seq<(Seq<usize>, InputModel)>;

    closed spec fn view(&self) -> Seq<(Seq<usize>, InputModel)> {
        Seq::new(self.bindings@.len(), |i: int| self.bindings@[i]@)
    }
}

impl InputScheme {
    /// The entries stand in the order of their chords, so no chord stands
    /// there twice.
    pub open spec fn wf(&self) -> bool {
        rising(self@)
    }

    /// The scheme without entries.
    pub fn new() -> (scheme: InputScheme)
        ensures
            scheme.wf(),
            scheme@.len() == 0,
    {
        InputScheme { bindings: Vec::new() }
    }

    /// The number of entries.
    pub fn len(&self) -> (count: usize)
        ensures
            count == self@.len(),
    {
        self.bindings.len()
    }

    /// What the entry at `index` does.
    pub fn action_at(&self, index: usize) -> (action: &Input)
        requires
            index < self@.len(),
        ensures
            action@ == self@[index as int].1,
    {
        &self.bindings[index].action
    }

    /// Whether the chord of the entry at `index` comes before `chord`.
    pub fn entry_precedes(&self, index: usize, chord: &Vec<usize>) -> (result: bool)
        requires
            index < self@.len(),
        ensures
            result == precedes(self@[index as int].0, chord@),
    {
        chord_precedes(&self.bindings[index].chord, chord)
    }

    /// The place of the first entry whose chord does not come before
    /// `chord`: where `chord` stands, or would have to be put.
    pub fn lower_bound(&self, chord: &Vec<usize>) -> (place: usize)
        requires
            self.wf(),
        ensures
            place <= self@.len(),
            forall|i: int| 0 <= i < place ==> precedes(#[trigger] self@[i].0, chord@),
            forall|i: int| place <= i < self@.len() ==> !precedes(#[trigger] self@[i].0, chord@),
    {
        let mut low: usize = 0;
        let mut high: usize = self.bindings.len();
        while low < high
            invariant
                self.wf(),
                low <= high <= self@.len(),
                self@.len() == self.bindings@.len(),
                forall|i: int| 0 <= i < low ==> precedes(#[trigger] self@[i].0, chord@),
                forall|i: int| high <= i < self@.len() ==> !precedes(#[trigger] self@[i].0, chord@),
            decreases high - low,
        {
            let middle: usize = low + (high - low) / 2;
            if chord_precedes(&self.bindings[middle].chord, chord) {
                assert forall|i: int| 0 <= i < middle + 1 implies precedes(
                    #[trigger] self@[i].0,
                    chord@,
                ) by {
                    if i < middle {
                        lemma_precedes_transitive(self@[i].0, self@[middle as int].0, chord@);
                    }
                }
                low = middle + 1;
            } else {
                assert forall|i: int| middle <= i < self@.len() implies !precedes(
                    #[trigger] self@[i].0,
                    chord@,
                ) by {
                    if i > middle && precedes(self@[i].0, chord@) {
                        lemma_precedes_transitive(self@[middle as int].0, self@[i].0, chord@);
                    }
                }
                high = middle;
            }
        }
        low
    }

    /// What `chord` does, if it stands in the scheme.
    pub fn get(&self, chord: &Vec<usize>) -> (found: Option<&Input>)
        requires
            self.wf(),
        ensures
            found is Some <==> bound_to(self@, chord@) is Some,
            found matches Some(action) ==> Some(action@) == bound_to(self@, chord@),
    {
        let place = self.lower_bound(chord);
        if place < self.bindings.len() && chord_equal(&self.bindings[place].chord, chord) {
            proof {
                lemma_bound_to_entry(self@, place as int);
            }
            Some(&self.bindings[place].action)
        } else {
            proof {
                self.lemma_absent(place as int, chord@);
            }
            None
        }
    }

    /// Puts `chord` into the scheme with what it does, unless it stands
    /// there already: then the scheme stays as it is, and `false` comes back.
    pub fn insert(&mut self, chord: Vec<usize>, action: Input) -> (added: bool)
        requires
            old(self).wf(),
        ensures
            final(self).wf(),
            added == (bound_to(old(self)@, chord@) is None),
            !added ==> final(self)@ == old(self)@,
            added ==> exists|place: int|
                0 <= place <= old(self)@.len() && final(self)@ == old(self)@.insert(
                    place,
                    (chord@, action@),
                ),
            added ==> forall|other: Seq<usize>|
                #[trigger] bound_to(final(self)@, other) == if other == chord@ {
                    Some(action@)
                } else {
                    bound_to(old(self)@, other)
                },
    {
        let place = self.lower_bound(&chord);
        if place < self.bindings.len() && chord_equal(&self.bindings[place].chord, &chord) {
            proof {
                lemma_bound_to_entry(self@, place as int);
            }
            return false;
        }
        proof {
            self.lemma_absent(place as int, chord@);
        }
        let ghost before = self@;
        let ghost entry = (chord@, action@);
        self.bindings.insert(place, Binding { chord, action });
        proof {
            assert(self@ =~= before.insert(place as int, entry));
            assert forall|i: int, j: int| 0 <= i < j < self@.len() implies precedes(
                #[trigger] self@[i].0,
                #[trigger] self@[j].0,
            ) by {
                if j == place {
                    assert(self@[i] == before[i]);
                } else if i == place {
                    assert(self@[j] == before[j - 1]);
                    lemma_precedes_total(entry.0, before[j - 1].0);
                } else {
                    let a = if i < place { i } else { i - 1 };
                    let b = if j < place { j } else { j - 1 };
                    assert(self@[i] == before[a] && self@[j] == before[b]);
                }
            }
            assert forall|other: Seq<usize>|
                #[trigger] bound_to(self@, other) == if other == entry.0 {
                    Some(entry.1)
                } else {
                    bound_to(before, other)
                } by {
                lemma_bound_to_insert(before, place as int, entry, other);
            }
        }
        true
    }

    /// What the entries with a chord from `lower` on do, up to the first
    /// entry whose chord does not come before `upper`; without an `upper`, up
    /// to the end.
    pub fn actions_from(&self, lower: &Vec<usize>, upper: Option<&Vec<usize>>) -> (actions: Vec<
        &Input,
    >)
        requires
            self.wf(),
        ensures
            actions@.len() == actions_within(self@, Self::range_of(lower@, upper)).len(),
            forall|i: int|
                0 <= i < actions@.len() ==> (#[trigger] actions@[i])@ == actions_within(
                    self@,
                    Self::range_of(lower@, upper),
                )[i],
    {
        let ghost range = Self::range_of(lower@, upper);
        let start = self.lower_bound(lower);
        let mut actions: Vec<&Input> = Vec::new();
        let mut next: usize = start;
        loop
            invariant_except_break
                self.wf(),
                start <= next <= self@.len(),
                self@.len() == self.bindings@.len(),
                range == Self::range_of(lower@, upper),
                actions@.len() == next - start,
                forall|i: int|
                    0 <= i < actions@.len() ==> (#[trigger] actions@[i])@ == self@[start + i].1,
                forall|i: int| start <= i < next ==> range.contains(#[trigger] self@[i].0),
                forall|i: int| 0 <= i < start ==> precedes(#[trigger] self@[i].0, lower@),
                forall|i: int| start <= i < self@.len() ==> !precedes(#[trigger] self@[i].0, lower@),
            ensures
                start <= next <= self@.len(),
                actions@.len() == next - start,
                forall|i: int|
                    0 <= i < actions@.len() ==> (#[trigger] actions@[i])@ == self@[start + i].1,
                forall|i: int| start <= i < next ==> range.contains(#[trigger] self@[i].0),
                forall|i: int| 0 <= i < start ==> !range.contains(#[trigger] self@[i].0),
                forall|i: int| next <= i < self@.len() ==> !range.contains(#[trigger] self@[i].0),
            decreases self@.len() - next,
        {
            if next == self.bindings.len() {
                break ;
            }
            let inside = match upper {
                Some(bound) => chord_precedes(&self.bindings[next].chord, bound),
                None => true,
            };
            if !inside {
                proof {
                    let bound = upper->0@;
                    assert forall|i: int| next <= i < self@.len() implies !range.contains(
                        #[trigger] self@[i].0,
                    ) by {
                        if i > next && precedes(self@[i].0, bound) {
                            lemma_precedes_transitive(self@[next as int].0, self@[i].0, bound);
                        }
                    }
                }
                break ;
            }
            actions.push(&self.bindings[next].action);
            next += 1;
        }
        proof {
            let whole = self@;
            let front = whole.subrange(0, start as int);
            let middle = whole.subrange(start as int, next as int);
            let back = whole.subrange(next as int, whole.len() as int);
            assert(whole =~= front + middle + back);
            lemma_actions_within_concat(front + middle, back, range);
            lemma_actions_within_concat(front, middle, range);
            lemma_actions_within_none(front, range);
            lemma_actions_within_none(back, range);
            lemma_actions_within_all(middle, range);
            assert(actions_within(whole, range) =~= actions_within(middle, range));
        }
        actions
    }

    /// The range that `actions_from` goes through.
    pub open spec fn range_of(lower: Seq<usize>, upper: Option<&Vec<usize>>) -> ChordRange {
        ChordRange {
            lower,
            upper: match upper {
                Some(bound) => Some(bound@),
                None => None,
            },
        }
    }

    /// Where no entry at the place of a chord holds it, none does.
    proof fn lemma_absent(&self, place: int, chord: Seq<usize>)
        requires
            self.wf(),
            0 <= place <= self@.len(),
            forall|i: int| 0 <= i < place ==> precedes(#[trigger] self@[i].0, chord),
            forall|i: int| place <= i < self@.len() ==> !precedes(#[trigger] self@[i].0, chord),
            place < self@.len() ==> self@[place].0 != chord,
        ensures
            bound_to(self@, chord) is None,
            forall|i: int| place <= i < self@.len() ==> precedes(chord, #[trigger] self@[i].0),
    {
        lemma_precedes_irreflexive(chord);
        assert forall|i: int| place <= i < self@.len() implies precedes(
            chord,
            #[trigger] self@[i].0,
        ) by {
            lemma_precedes_total(chord, self@[i].0);
            if self@[i].0 == chord {
                assert(i > place);
                assert(precedes(self@[place].0, self@[i].0));
            }
        }
        assert forall|i: int| 0 <= i < self@.len() implies #[trigger] self@[i].0 != chord by {
            if i >= place {
                assert(precedes(chord, self@[i].0));
            } else {
                assert(precedes(self@[i].0, chord));
            }
        }
    }
}

} // verus!
