use vstd::prelude::*;

verus! {

/// Whether the voice at `index` is reported as finished. A voice beyond the
/// end of the report is not.
pub open spec fn is_done(finished: Seq<bool>, index: int) -> bool {
    0 <= index < finished.len() && finished[index]
}

/// The voices that a sweep keeps: those not reported as finished, in their
/// order.
pub open spec fn surviving<H>(voices: Seq<H>, finished: Seq<bool>) -> Seq<H>
    decreases voices.len(),
{
    if voices.len() == 0 {
        Seq::empty()
    } else {
        let before = surviving(voices.drop_last(), finished);
        if is_done(finished, voices.len() - 1) {
            before
        } else {
            before.push(voices.last())
        }
    }
}

/// The elements of `items` in the opposite order.
pub fn reversed<T>(items: Vec<T>) -> (r: Vec<T>)
    ensures
        r@ == items@.reverse(),
{
    let mut items = items;
    let ghost all = items@;
    let mut r: Vec<T> = Vec::new();
    while items.len() > 0
        invariant
            items@.len() + r@.len() == all.len(),
            items@ == all.take(items@.len() as int),
            forall|k: int| 0 <= k < r@.len() ==> r@[k] == all[all.len() - 1 - k],
        decreases items@.len(),
    {
        let ghost n = items@.len();
        let item = items.pop().unwrap();
        r.push(item);
        assert(items@ =~= all.take(n - 1));
    }
    assert(r@ =~= all.reverse());
    r
}

/// The handles of the voices that are playing, in the order in which they
/// were triggered.
pub struct ActivePlaybackSet<H> {
    voices: Vec<H>,
}

impl<H> View for ActivePlaybackSet<H> {
    type V = Seq<H>;

    closed spec fn view(&self) -> Seq<H> {
        self.voices@
    }
}

impl<H> ActivePlaybackSet<H> {
    pub fn new() -> (r: Self)
        ensures
            r@ == Seq::<H>::empty(),
    {
        ActivePlaybackSet { voices: Vec::new() }
    }

    /// Takes in the handle of a voice that was just triggered.
    pub fn track(&mut self, handle: H)
        ensures
            final(self)@ == old(self)@.push(handle),
    {
        self.voices.push(handle);
    }

    /// The number of voices tracked.
    pub fn len(&self) -> (r: usize)
        ensures
            r == self@.len(),
    {
        self.voices.len()
    }

    /// The handle at `index`, or nothing beyond the last.
    pub fn get(&self, index: usize) -> (r: Option<&H>)
        ensures
            r == if index < self@.len() {
                Some(&self@[index as int])
            } else {
                None
            },
    {
        if index < self.voices.len() {
            Some(&self.voices[index])
        } else {
            None
        }
    }

    /// Drops the voices that `finished` reports as done, position by position,
    /// and keeps all others in their order.
    pub fn prune(&mut self, finished: &Vec<bool>)
        ensures
            final(self)@ == surviving(old(self)@, finished@),
    {
        let ghost all = self.voices@;
        let total: usize = self.voices.len();
        let mut taken: Vec<H> = Vec::new();
        std::mem::swap(&mut self.voices, &mut taken);
        let mut stack = reversed(taken);
        let mut i: usize = 0;
        while stack.len() > 0
            invariant
                all.len() == total,
                i + stack@.len() == all.len(),
                stack@ == all.reverse().take(stack@.len() as int),
                self.voices@ == surviving(all.take(i as int), finished@),
            decreases stack@.len(),
        {
            let ghost n = stack@.len();
            let voice = stack.pop().unwrap();
            assert(stack@ =~= all.reverse().take(n - 1));
            assert(voice == all[i as int]);
            assert(all.take(i + 1).drop_last() =~= all.take(i as int));
            let done = i < finished.len() && finished[i];
            if !done {
                self.voices.push(voice);
            }
            i += 1;
        }
        assert(all.take(i as int) =~= all);
    }
}

/// Where no voice is reported as finished, a sweep keeps them all.
pub proof fn lemma_prune_keeps_playing<H>(voices: Seq<H>, finished: Seq<bool>)
    requires
        forall|i: int| 0 <= i < voices.len() ==> !is_done(finished, i),
    ensures
        surviving(voices, finished) == voices,
    decreases voices.len(),
{
    if voices.len() > 0 {
        lemma_prune_keeps_playing(voices.drop_last(), finished);
        assert(voices.drop_last().push(voices.last()) =~= voices);
    }
}

/// Where exactly one voice is reported as finished, a sweep removes that one
/// and keeps every other, in order.
pub proof fn lemma_prune_removes_exactly_the_finished<H>(
    voices: Seq<H>,
    finished: Seq<bool>,
    done: int,
)
    requires
        0 <= done < voices.len(),
        forall|i: int| 0 <= i < voices.len() ==> (is_done(finished, i) <==> i == done),
    ensures
        surviving(voices, finished) == voices.remove(done),
    decreases voices.len(),
{
    let n = voices.len() - 1;
    if done == n {
        lemma_prune_keeps_playing(voices.drop_last(), finished);
        assert(voices.remove(done) =~= voices.drop_last());
    } else {
        lemma_prune_removes_exactly_the_finished(voices.drop_last(), finished, done);
        assert(voices.drop_last().remove(done).push(voices.last()) =~= voices.remove(done));
    }
}

} // verus!
