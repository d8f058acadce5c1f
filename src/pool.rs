use vstd::prelude::*;

verus! {

/// `items` is a valid free list for a pool of `cap` workers: each worker at most
/// once, and every worker one of the pool's.
pub open spec fn free_ok(items: Seq<usize>, cap: nat) -> bool {
    &&& items.no_duplicates()
    &&& forall|i: int| 0 <= i < items.len() ==> (#[trigger] items[i]) < cap
}

/// `w` is one of the pool's workers and is not on the free list: some caller or
/// session holds it.
pub open spec fn checked_out(items: Seq<usize>, cap: nat, w: usize) -> bool {
    w < cap && !items.contains(w)
}

/// The workers of a pool that are free to serve a call, named by their slot
/// numbers `0 .. capacity`.
pub struct FreeList {
    cap: usize,
    items: Vec<usize>,
}

impl FreeList {
    /// Number of workers of the pool, free or not.
    pub closed spec fn capacity(&self) -> nat {
        self.cap as nat
    }

    /// The free workers, the last one being handed out first.
    pub closed spec fn free(&self) -> Seq<usize> {
        self.items@
    }

    pub open spec fn wf(&self) -> bool {
        free_ok(self.free(), self.capacity())
    }

    pub proof fn lemma_capacity_fits(&self)
        ensures
            self.capacity() <= usize::MAX,
    {
    }

    /// A pool of `cap` workers, all of them free.
    pub fn new(cap: usize) -> (r: FreeList)
        ensures
            r.wf(),
            r.capacity() == cap,
            r.free() == Seq::new(cap as nat, |i: int| i as usize),
    {
        let mut items: Vec<usize> = Vec::new();
        let mut i: usize = 0;
        while i < cap
            invariant
                i <= cap,
                items@ == Seq::new(i as nat, |j: int| j as usize),
            decreases cap - i,
        {
            items.push(i);
            i = i + 1;
            assert(items@ =~= Seq::new(i as nat, |j: int| j as usize));
        }
        FreeList { cap, items }
    }

    /// Number of workers of the pool; 0 means a fresh process per call.
    pub fn size(&self) -> (r: usize)
        ensures
            r == self.capacity(),
    {
        self.cap
    }

    /// Whether calls on this pool run a fresh process each instead of a pooled worker.
    pub fn is_one_shot(&self) -> (r: bool)
        ensures
            r == (self.capacity() == 0),
    {
        self.cap == 0
    }

    /// Number of free workers.
    pub fn free_count(&self) -> (r: usize)
        ensures
            r == self.free().len(),
    {
        self.items.len()
    }

    /// Whether worker `w` is on the free list.
    pub fn is_free(&self, w: usize) -> (r: bool)
        ensures
            r == self.free().contains(w),
    {
        let mut i: usize = 0;
        while i < self.items.len()
            invariant
                i <= self.items@.len(),
                forall|j: int| 0 <= j < i ==> self.items@[j] != w,
            decreases self.items@.len() - i,
        {
            if self.items[i] == w {
                return true;
            }
            i = i + 1;
        }
        false
    }

    /// Hands out the most recently freed worker, if any is free.
    pub fn take(&mut self) -> (r: Option<usize>)
        requires
            old(self).wf(),
        ensures
            final(self).wf(),
            final(self).capacity() == old(self).capacity(),
            old(self).free().len() > 0 ==> {
                &&& r == Some(old(self).free().last())
                &&& final(self).free() == old(self).free().drop_last()
            },
            old(self).free().len() == 0 ==> r is None && final(self).free() == old(self).free(),
            r matches Some(w) ==> checked_out(final(self).free(), final(self).capacity(), w),
    {
        let r = self.items.pop();
        proof {
            let s = old(self).free();
            if s.len() > 0 {
                assert(s =~= s.drop_last().push(s.last()));
                assert(!s.drop_last().contains(s.last())) by {
                    if s.drop_last().contains(s.last()) {
                        let j = choose|j: int| 0 <= j < s.len() - 1 && s.drop_last()[j] == s.last();
                        assert(s[j] == s[s.len() - 1]);
                    }
                }
                assert(s[s.len() - 1] < self.cap);
            }
        }
        r
    }

    /// Puts `w` on the free list; refused, with nothing changed, unless `w` is
    /// one of the pool's workers and not free already.
    pub fn put_back(&mut self, w: usize) -> (r: bool)
        requires
            old(self).wf(),
        ensures
            final(self).wf(),
            final(self).capacity() == old(self).capacity(),
            r == checked_out(old(self).free(), old(self).capacity(), w),
            r ==> final(self).free() == old(self).free().push(w),
            !r ==> final(self).free() == old(self).free(),
    {
        if w >= self.cap || self.is_free(w) {
            return false;
        }
        self.items.push(w);
        proof {
            let s = old(self).free();
            let t = self.items@;
            assert(t == s.push(w));
            assert forall|i: int, j: int| 0 <= i < t.len() && 0 <= j < t.len() && i != j implies t[i]
                != t[j] by {
                if i < s.len() && j < s.len() {
                    assert(s[i] != s[j]);
                } else if i < s.len() {
                    assert(s.contains(s[i]));
                } else {
                    assert(s.contains(s[j]));
                }
            }
        }
        true
    }
}

/// A worker taken from the free list and given back leaves the list as it was,
/// whatever happened in between: a caller that timed out or a failed exchange
/// loses no worker and duplicates none, so a retried call finds it again.
pub proof fn lemma_take_then_put_back(free: Seq<usize>, cap: nat)
    requires
        free_ok(free, cap),
        free.len() > 0,
    ensures
        free_ok(free.drop_last(), cap),
        checked_out(free.drop_last(), cap, free.last()),
        free.drop_last().push(free.last()) == free,
{
    assert(free.drop_last().push(free.last()) =~= free);
    assert(!free.drop_last().contains(free.last())) by {
        if free.drop_last().contains(free.last()) {
            let j = choose|j: int| 0 <= j < free.len() - 1 && free.drop_last()[j] == free.last();
            assert(free[j] == free[free.len() - 1]);
        }
    }
    assert(free[free.len() - 1] < cap);
}

/// While some worker of a pool is not checked out, it is on the free list: a
/// caller admitted by one of the pool's `capacity` permits never finds the
/// list empty.
pub proof fn lemma_free_while_not_all_checked_out(free: Seq<usize>, cap: nat, w: usize)
    requires
        free_ok(free, cap),
        w < cap,
        !checked_out(free, cap, w),
    ensures
        free.len() > 0,
        free.contains(w),
{
}

/// A free list never holds more workers than its pool has.
pub proof fn lemma_free_within_capacity(free: Seq<usize>, cap: nat)
    requires
        free_ok(free, cap),
        cap <= usize::MAX,
    ensures
        free.len() <= cap,
{
    let cu = cap as usize;
    free.unique_seq_to_set();
    vstd::set_lib::range_set_properties::<usize>(0, cu);
    assert forall|w: usize| free.to_set().contains(w) implies Set::<usize>::range(0, cu).contains(
        w,
    ) by {
        let i = choose|i: int| 0 <= i < free.len() && free[i] == w;
        assert(free[i] < cap);
    }
    vstd::set_lib::lemma_len_subset(free.to_set(), Set::<usize>::range(0, cu));
}

} // verus!
