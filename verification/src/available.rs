use vstd::prelude::*;

verus! {

/// The sound ids that have a clip behind them. Each id is held once, so a
/// uniform draw over the slots is a uniform draw over the ids.
pub struct AvailableSounds {
    ids: Vec<i32>,
}

impl View for AvailableSounds {
    type V = Set<i32>;

    closed spec fn view(&self) -> Set<i32> {
        self.ids@.to_set()
    }
}

impl AvailableSounds {
    /// No id is held twice.
    pub closed spec fn wf(&self) -> bool {
        self.ids@.no_duplicates()
    }

    /// The ids in the order in which they were first inserted.
    pub closed spec fn slots(&self) -> Seq<i32> {
        self.ids@
    }

    /// The slots hold exactly the ids of the set, each once.
    pub proof fn lemma_slots(&self)
        requires
            self.wf(),
        ensures
            self.slots().no_duplicates(),
            self.slots().to_set() == self@,
            self@.finite(),
            self@.len() == self.slots().len(),
    {
        self.ids@.unique_seq_to_set();
    }

    pub fn new() -> (r: AvailableSounds)
        ensures
            r.wf(),
            r@ == Set::<i32>::empty(),
            r.slots() == Seq::<i32>::empty(),
    {
        let r = AvailableSounds { ids: Vec::new() };
        assert(r.ids@.to_set() =~= Set::<i32>::empty());
        r
    }

    /// Whether `id` is one of the available sounds.
    pub fn contains(&self, id: i32) -> (r: bool)
        ensures
            r == self@.contains(id),
    {
        let mut i: usize = 0;
        while i < self.ids.len()
            invariant
                i <= self.ids@.len(),
                forall|j: int| 0 <= j < i ==> self.ids@[j] != id,
            decreases self.ids@.len() - i,
        {
            if self.ids[i] == id {
                return true;
            }
            i += 1;
        }
        false
    }

    /// Adds `id` to the set; an id that is already there stays where it is.
    pub fn insert(&mut self, id: i32)
        requires
            old(self).wf(),
        ensures
            final(self).wf(),
            final(self)@ == old(self)@.insert(id),
            final(self).slots() == if old(self)@.contains(id) {
                old(self).slots()
            } else {
                old(self).slots().push(id)
            },
    {
        if !self.contains(id) {
            self.ids.push(id);
            assert(self.ids@.to_set() =~= old(self).ids@.to_set().insert(id)) by {
                assert forall|x: i32| self.ids@.contains(x) implies old(self).ids@.contains(x)
                    || x == id by {
                    let j = choose|j: int| 0 <= j < self.ids@.len() && self.ids@[j] == x;
                    if j < old(self).ids@.len() {
                        assert(old(self).ids@[j] == x);
                    }
                }
                assert forall|x: i32| old(self).ids@.contains(x) || x == id implies self.ids@.contains(
                    x,
                ) by {
                    if old(self).ids@.contains(x) {
                        let j = choose|j: int| 0 <= j < old(self).ids@.len() && old(self).ids@[j] == x;
                        assert(self.ids@[j] == x);
                    } else {
                        assert(self.ids@[self.ids@.len() - 1] == x);
                    }
                }
            }
        } else {
            assert(self.ids@.to_set() =~= self.ids@.to_set().insert(id));
        }
    }

    /// How many sounds are available.
    pub fn len(&self) -> (r: usize)
        requires
            self.wf(),
        ensures
            r == self@.len(),
            r == self.slots().len(),
    {
        proof {
            self.lemma_slots();
        }
        self.ids.len()
    }

    pub fn is_empty(&self) -> (r: bool)
        ensures
            r == (self@ == Set::<i32>::empty()),
            r == (self.slots().len() == 0),
    {
        let r = self.ids.len() == 0;
        proof {
            if r {
                assert(self.ids@.to_set() =~= Set::<i32>::empty());
            } else {
                assert(self.ids@.contains(self.ids@[0]));
                assert(self.ids@.to_set().contains(self.ids@[0]));
            }
        }
        r
    }

    /// The id in slot `index`.
    pub fn slot(&self, index: usize) -> (r: i32)
        requires
            index < self.slots().len(),
        ensures
            r == self.slots()[index as int],
            self@.contains(r),
    {
        assert(self.ids@.contains(self.ids@[index as int]));
        self.ids[index]
    }

    /// The ids, one per slot.
    pub fn to_vec(&self) -> (r: Vec<i32>)
        ensures
            r@ == self.slots(),
    {
        self.ids.clone()
    }
}

} // verus!
