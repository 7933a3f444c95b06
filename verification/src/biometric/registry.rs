//! Which place an attribute has.
use vstd::prelude::*;

verus! {

/// Labels with their places. A label that is entered again takes its new place.
pub struct AttributeMap {
    entries: Vec<(String, usize)>,
}

spec fn places(entries: Seq<(String, usize)>) -> Map<Seq<char>, usize>
    decreases entries.len(),
{
    if entries.len() == 0 {
        Map::empty()
    } else {
        places(entries.drop_last()).insert(entries.last().0@, entries.last().1)
    }
}

impl View for AttributeMap {
    type V = Map<Seq<char>, usize>;

    closed spec fn view(&self) -> Map<Seq<char>, usize> {
        places(self.entries@)
    }
}

impl AttributeMap {
    /// A map without labels.
    pub fn new() -> (r: AttributeMap)
        ensures
            r@ == Map::<Seq<char>, usize>::empty(),
    {
        AttributeMap { entries: Vec::new() }
    }

    /// Enters a label with its place.
    pub fn insert(&mut self, label: &str, place: usize)
        ensures
            final(self)@ == old(self)@.insert(label@, place),
    {
        let ghost before = self.entries@;
        self.entries.push((label.to_string(), place));
        assert(self.entries@.drop_last() =~= before);
    }

    /// The place of a label.
    pub fn get(&self, label: &str) -> (r: Option<usize>)
        ensures
            r == if self@.contains_key(label@) {
                Some(self@[label@])
            } else {
                None
            },
    {
        let mut i: usize = self.entries.len();
        let wanted = label.to_string();
        let ghost all = self.entries@;
        assert(all.take(all.len() as int) =~= all);
        while i > 0
            invariant
                all == self.entries@,
                i <= all.len(),
                wanted@ == label@,
                places(all).contains_key(label@) == places(all.take(i as int)).contains_key(
                    label@,
                ),
                places(all).contains_key(label@) ==> places(all)[label@] == places(
                    all.take(i as int),
                )[label@],
            decreases i,
        {
            i -= 1;
            assert(all.take(i + 1).drop_last() =~= all.take(i as int));
            assert(all.take(i + 1).last() == all[i as int]);
            if self.entries[i].0 == wanted {
                return Some(self.entries[i].1);
            }
        }
        assert(all.take(0).len() == 0);
        None
    }
}

} // verus!
