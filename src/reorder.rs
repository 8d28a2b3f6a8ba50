use vstd::prelude::*;

verus! {

/// The items of inputs `a` up to `b` (not included), input after input.
pub open spec fn concat_range<T>(p: Seq<Seq<T>>, a: int, b: int) -> Seq<T>
    decreases b - a,
{
    if b <= a {
        Seq::empty()
    } else {
        concat_range(p, a, b - 1) + p[b - 1]
    }
}

/// The first input from `from` on that has not finished, or `done.len()`.
pub open spec fn next_open(done: Seq<bool>, from: int) -> int
    decreases done.len() - from,
{
    if from >= done.len() {
        done.len() as int
    } else if !done[from] {
        from
    } else {
        next_open(done, from + 1)
    }
}

/// Puts batches that arrive from several inputs at once back in input
/// order: the items of the input being written pass straight through, the
/// items of later inputs wait until every earlier input has finished.
pub struct ReorderBuffer<T> {
    pub current: usize,
    pub pending: Vec<Vec<T>>,
    pub done: Vec<bool>,
}

impl<T> ReorderBuffer<T> {
    pub open spec fn pending_model(&self) -> Seq<Seq<T>> {
        self.pending@.map_values(|v: Vec<T>| v@)
    }

    /// Inputs before the current one have finished, the current one has
    /// nothing waiting.
    pub open spec fn wf(&self) -> bool {
        &&& self.pending@.len() == self.done@.len()
        &&& self.current <= self.done@.len()
        &&& forall|j: int| 0 <= j < self.current ==> #[trigger] self.done@[j]
        &&& self.current < self.done@.len() ==> !self.done@[self.current as int]
            && self.pending@[self.current as int]@.len() == 0
    }

    /// A buffer for `n` inputs, none started.
    pub fn new(n: usize) -> (r: Self)
        ensures
            r.wf(),
            r.current == 0,
            r.done@.len() == n,
            forall|j: int| 0 <= j < n ==> !(#[trigger] r.done@[j]) && r.pending@[j]@.len() == 0,
    {
        let mut pending: Vec<Vec<T>> = Vec::new();
        let mut done: Vec<bool> = Vec::new();
        let mut i: usize = 0;
        while i < n
            invariant
                i <= n,
                pending@.len() == i && done@.len() == i,
                forall|j: int| 0 <= j < i ==> !(#[trigger] done@[j]) && pending@[j]@.len() == 0,
            decreases n - i,
        {
            pending.push(Vec::new());
            done.push(false);
            i += 1;
        }
        ReorderBuffer { current: 0, pending, done }
    }

    /// Accepts the next item of an unfinished input. It is released at once
    /// when its input is the one being written, else it waits.
    pub fn push(&mut self, input: usize, item: T) -> (r: Vec<T>)
        requires
            old(self).wf(),
            input < old(self).done@.len(),
            !old(self).done@[input as int],
        ensures
            final(self).wf(),
            final(self).current == old(self).current,
            final(self).done@ == old(self).done@,
            input == old(self).current ==> r@ == seq![item] && final(self).pending_model()
                == old(self).pending_model(),
            input != old(self).current ==> r@.len() == 0 && final(self).pending_model()
                == old(self).pending_model().update(
                input as int,
                old(self).pending_model()[input as int].push(item),
            ),
    {
        if input == self.current {
            let mut r = Vec::new();
            r.push(item);
            r
        } else {
            let ghost before = self.pending_model();
            self.pending[input].push(item);
            assert(self.pending_model() =~= before.update(input as int, before[input as int].push(item)));
            Vec::new()
        }
    }

    /// Records that an input has ended. When it is the one being written,
    /// the buffer moves on to the next unfinished input, releasing what the
    /// inputs in between (and that one) had waiting, in input order.
    pub fn finish(&mut self, input: usize) -> (r: Vec<T>)
        requires
            old(self).wf(),
            input < old(self).done@.len(),
        ensures
            final(self).wf(),
            final(self).done@ == old(self).done@.update(input as int, true),
            input != old(self).current ==> r@.len() == 0 && final(self).current == old(self).current
                && final(self).pending_model() == old(self).pending_model(),
            input == old(self).current ==> ({
                let c = next_open(final(self).done@, input + 1);
                &&& final(self).current == c
                &&& r@ == concat_range(
                    old(self).pending_model(),
                    input + 1,
                    if c < old(self).done@.len() {
                        c + 1
                    } else {
                        c
                    },
                )
                &&& forall|j: int|
                    c < j < old(self).done@.len() ==> #[trigger] final(self).pending_model()[j]
                        == old(self).pending_model()[j]
            }),
    {
        let ghost pend0 = self.pending_model();
        self.done.set(input, true);
        let n = self.done.len();
        let mut out: Vec<T> = Vec::new();
        if input != self.current {
            return out;
        }
        let mut c = input + 1;
        loop
            invariant
                self.pending@.len() == self.done@.len() == n,
                pend0.len() == n,
                pend0 == old(self).pending_model(),
                input == old(self).current,
                self.done@ == old(self).done@.update(input as int, true),
                old(self).done@.len() == n,
                input < n,
                input + 1 <= c <= n,
                forall|j: int| 0 <= j < c ==> #[trigger] self.done@[j],
                next_open(self.done@, input + 1) == next_open(self.done@, c as int),
                out@ == concat_range(pend0, input + 1, c as int),
                forall|j: int| c <= j < n ==> #[trigger] self.pending_model()[j] == pend0[j],
                self.done@.len() == n,
            decreases n - c,
        {
            if c >= n {
                assert(next_open(self.done@, c as int) == n);
                let ghost pm2 = self.pending_model();
                self.current = c;
                assert(self.pending_model() == pm2);
                return out;
            }
            let ghost before = self.pending@;
            let ghost pm = self.pending_model();
            assert(pm[c as int] == pend0[c as int]);
            assert(before[c as int]@ == pm[c as int]);
            let mut taken: Vec<T> = Vec::new();
            std::mem::swap(&mut self.pending[c], &mut taken);
            assert(taken@ == pend0[c as int]);
            let ghost out_before = out@;
            out.append(&mut taken);
            assert(concat_range(pend0, input + 1, c + 1) == concat_range(pend0, input + 1, c as int) + pend0[c as int]);
            assert(out@ == out_before + pend0[c as int]);
            assert forall|j: int| c < j < n implies #[trigger] self.pending_model()[j] == pend0[j] by {
                assert(self.pending@[j] == before[j]);
                assert(pm[j] == pend0[j]);
                assert(before[j]@ == pm[j]);
            }
            if !self.done[c] {
                assert(next_open(self.done@, c as int) == c);
                let ghost pm2 = self.pending_model();
                self.current = c;
                assert(self.pending_model() == pm2);
                return out;
            }
            assert(next_open(self.done@, c as int) == next_open(self.done@, c + 1));
            c += 1;
        }
    }
}

} // verus!
