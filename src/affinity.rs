use vstd::prelude::*;

use crate::pool::{checked_out, free_ok, FreeList};

verus! {

/// How long a session may leave its worker unused before the reaper takes it back.
pub const IDLE_EVICTION_MS: u64 = 660_000;

/// How often the reaper looks for idle sessions.
pub const REAP_INTERVAL_MS: u64 = 60_000;

/// A session and the worker it is bound to.
struct Binding {
    sid: String,
    worker: usize,
}

/// No session appears twice in `b`.
pub open spec fn sids_unique(b: Seq<(Seq<char>, usize)>) -> bool {
    forall|i: int, j: int| 0 <= i < b.len() && 0 <= j < b.len() && i != j ==> b[i].0 != b[j].0
}

/// No worker appears twice in `b`.
pub open spec fn workers_unique(b: Seq<(Seq<char>, usize)>) -> bool {
    forall|i: int, j: int| 0 <= i < b.len() && 0 <= j < b.len() && i != j ==> b[i].1 != b[j].1
}

pub open spec fn has_session(b: Seq<(Seq<char>, usize)>, k: Seq<char>) -> bool {
    exists|i: int| 0 <= i < b.len() && b[i].0 == k
}

pub open spec fn holds_worker(b: Seq<(Seq<char>, usize)>, w: usize) -> bool {
    exists|i: int| 0 <= i < b.len() && b[i].1 == w
}

/// The bindings `b` as a map from session to worker.
pub open spec fn session_map(b: Seq<(Seq<char>, usize)>) -> Map<Seq<char>, usize> {
    Map::new(
        |k: Seq<char>| has_session(b, k),
        |k: Seq<char>| b[choose|i: int| 0 <= i < b.len() && b[i].0 == k].1,
    )
}

/// The texts of `v`, in order.
pub open spec fn names(v: Seq<String>) -> Seq<Seq<char>> {
    v.map_values(|s: String| s@)
}

/// A worker last used at `ts` has been idle for at least `idle` at time `now`.
pub open spec fn is_idle(ts: u64, now: u64, idle: u64) -> bool {
    now >= ts && now - ts >= idle
}

/// How a call for a session is to be served.
#[derive(Clone, Copy, PartialEq, Eq, Structural, Debug)]
pub enum BindPlan {
    /// The pool keeps no workers: run a fresh process for this call.
    OneShot,
    /// The session is bound to this worker: use it.
    Reuse(usize),
    /// The session is not bound: take a free worker, waiting for one if needed.
    Acquire,
}

/// The plan for a call of session `k` on a pool of `cap` workers with sessions `m`.
pub open spec fn plan_for(cap: nat, m: Map<Seq<char>, usize>, k: Seq<char>) -> BindPlan {
    if cap == 0 {
        BindPlan::OneShot
    } else if m.contains_key(k) {
        BindPlan::Reuse(m[k])
    } else {
        BindPlan::Acquire
    }
}

proof fn lemma_session_map(b: Seq<(Seq<char>, usize)>)
    requires
        sids_unique(b),
    ensures
        forall|i: int|
            0 <= i < b.len() ==> #[trigger] session_map(b).contains_key(b[i].0) && session_map(
                b,
            )[b[i].0] == b[i].1,
        forall|k: Seq<char>| #[trigger] session_map(b).contains_key(k) <==> has_session(b, k),
{
    assert forall|i: int| 0 <= i < b.len() implies #[trigger] session_map(b).contains_key(b[i].0)
        && session_map(b)[b[i].0] == b[i].1 by {
        assert(has_session(b, b[i].0));
        let j = choose|j: int| 0 <= j < b.len() && b[j].0 == b[i].0;
        assert(j == i);
    }
}

proof fn lemma_push(b: Seq<(Seq<char>, usize)>, p: (Seq<char>, usize))
    requires
        sids_unique(b),
        !has_session(b, p.0),
    ensures
        sids_unique(b.push(p)),
        session_map(b.push(p)) == session_map(b).insert(p.0, p.1),
{
    let c = b.push(p);
    assert(sids_unique(c)) by {
        assert forall|i: int, j: int|
            0 <= i < c.len() && 0 <= j < c.len() && i != j implies c[i].0 != c[j].0 by {
            if i < b.len() && j < b.len() {
                assert(c[i] == b[i] && c[j] == b[j]);
            } else if i < b.len() {
                assert(c[i] == b[i]);
            } else {
                assert(c[j] == b[j]);
            }
        }
    }
    lemma_session_map(b);
    lemma_session_map(c);
    assert forall|k: Seq<char>| #[trigger] session_map(c).contains_key(k) implies session_map(
        b,
    ).insert(p.0, p.1).contains_key(k) && session_map(c)[k] == session_map(b).insert(p.0, p.1)[k] by {
        let i = choose|i: int| 0 <= i < c.len() && c[i].0 == k;
        if i < b.len() {
            assert(c[i] == b[i]);
        }
    }
    assert forall|k: Seq<char>| #[trigger]
        session_map(b).insert(p.0, p.1).contains_key(k) implies session_map(c).contains_key(k) by {
        if k != p.0 {
            let i = choose|i: int| 0 <= i < b.len() && b[i].0 == k;
            assert(c[i] == b[i]);
        } else {
            assert(c[b.len() as int] == p);
        }
    }
    assert(session_map(c) =~= session_map(b).insert(p.0, p.1));
}

proof fn lemma_remove(b: Seq<(Seq<char>, usize)>, i: int)
    requires
        sids_unique(b),
        workers_unique(b),
        0 <= i < b.len(),
    ensures
        sids_unique(b.remove(i)),
        workers_unique(b.remove(i)),
        session_map(b.remove(i)) == session_map(b).remove(b[i].0),
        forall|w: usize| holds_worker(b.remove(i), w) ==> holds_worker(b, w) && w != b[i].1,
{
    let c = b.remove(i);
    b.remove_ensures(i);
    assert(forall|j: int| 0 <= j < c.len() ==> #[trigger] c[j] == b[if j < i { j } else { j + 1 }]);
    lemma_session_map(b);
    lemma_session_map(c);
    assert forall|k: Seq<char>| #[trigger] session_map(c).contains_key(k) implies session_map(
        b,
    ).remove(b[i].0).contains_key(k) && session_map(c)[k] == session_map(b)[k] by {
        let j = choose|j: int| 0 <= j < c.len() && c[j].0 == k;
        let jb = if j < i { j } else { j + 1 };
        assert(c[j] == b[jb]);
    }
    assert forall|k: Seq<char>| #[trigger]
        session_map(b).remove(b[i].0).contains_key(k) implies session_map(c).contains_key(k) by {
        let j = choose|j: int| 0 <= j < b.len() && b[j].0 == k;
        assert(j != i);
        let jc = if j < i { j } else { j - 1 };
        assert(c[jc] == b[j]);
    }
    assert(session_map(c) =~= session_map(b).remove(b[i].0));
    assert(sids_unique(c) && workers_unique(c)) by {
        assert forall|x: int, y: int|
            0 <= x < c.len() && 0 <= y < c.len() && x != y implies c[x].0 != c[y].0 && c[x].1
            != c[y].1 by {
            let xb = if x < i { x } else { x + 1 };
            let yb = if y < i { y } else { y + 1 };
            assert(c[x] == b[xb] && c[y] == b[yb]);
        }
    }
    assert forall|w: usize| holds_worker(c, w) implies holds_worker(b, w) && w != b[i].1 by {
        let j = choose|j: int| 0 <= j < c.len() && c[j].1 == w;
        let jb = if j < i { j } else { j + 1 };
        assert(c[j] == b[jb]);
    }
}

/// A pool whose workers serve sessions: a session keeps the worker that first
/// served it until it is released or found idle.
pub struct AffinityPool {
    free: FreeList,
    bound: Vec<Binding>,
    last_used: Vec<u64>,
}

impl AffinityPool {
    pub closed spec fn capacity(&self) -> nat {
        self.free.capacity()
    }

    /// The free workers, the last one being handed out first.
    pub closed spec fn free_workers(&self) -> Seq<usize> {
        self.free.free()
    }

    closed spec fn pairs(&self) -> Seq<(Seq<char>, usize)> {
        self.bound@.map_values(|x: Binding| (x.sid@, x.worker))
    }

    /// The bound sessions and their workers.
    pub closed spec fn sessions(&self) -> Map<Seq<char>, usize> {
        session_map(self.pairs())
    }

    /// When each worker was last used, by slot.
    pub closed spec fn last_used_at(&self) -> Seq<u64> {
        self.last_used@
    }

    pub closed spec fn wf(&self) -> bool {
        let b = self.pairs();
        &&& self.free.wf()
        &&& self.last_used@.len() == self.capacity()
        &&& sids_unique(b)
        &&& workers_unique(b)
        &&& forall|i: int|
            0 <= i < b.len() ==> checked_out(self.free_workers(), self.capacity(), #[trigger] b[i].1)
    }

    /// Worker `w` is bound to some session.
    pub open spec fn is_bound(&self, w: usize) -> bool {
        exists|k: Seq<char>| #[trigger] self.sessions().contains_key(k) && self.sessions()[k] == w
    }

    /// Worker `w` is held by a call and neither free nor bound.
    pub open spec fn in_flight(&self, w: usize) -> bool {
        checked_out(self.free_workers(), self.capacity(), w) && !self.is_bound(w)
    }

    proof fn lemma_bound_iff(&self, w: usize)
        requires
            self.wf(),
        ensures
            self.is_bound(w) <==> holds_worker(self.pairs(), w),
    {
        let b = self.pairs();
        lemma_session_map(b);
        if holds_worker(b, w) {
            let i = choose|i: int| 0 <= i < b.len() && b[i].1 == w;
            assert(self.sessions().contains_key(b[i].0));
        }
        if self.is_bound(w) {
            let k = choose|k: Seq<char>| #[trigger]
                self.sessions().contains_key(k) && self.sessions()[k] == w;
            let i = choose|i: int| 0 <= i < b.len() && b[i].0 == k;
            assert(b[i].1 == w);
        }
    }

    proof fn lemma_pairs_index(&self)
        ensures
            self.pairs().len() == self.bound@.len(),
            forall|i: int|
                0 <= i < self.bound@.len() ==> #[trigger] self.pairs()[i] == (
                    self.bound@[i].sid@,
                    self.bound@[i].worker,
                ),
    {
    }

    /// A pool of `size` workers, all free, none used since `now`.
    pub fn new(size: usize, now: u64) -> (r: AffinityPool)
        ensures
            r.wf(),
            r.capacity() == size,
            r.free_workers() == Seq::new(size as nat, |i: int| i as usize),
            r.sessions() == Map::<Seq<char>, usize>::empty(),
            r.last_used_at() == Seq::new(size as nat, |i: int| now),
    {
        let free = FreeList::new(size);
        let mut last_used: Vec<u64> = Vec::new();
        let mut i: usize = 0;
        while i < size
            invariant
                i <= size,
                last_used@ == Seq::new(i as nat, |j: int| now),
            decreases size - i,
        {
            last_used.push(now);
            i = i + 1;
            assert(last_used@ =~= Seq::new(i as nat, |j: int| now));
        }
        let r = AffinityPool { free, bound: Vec::new(), last_used };
        assert(r.pairs() =~= Seq::empty());
        assert(r.sessions() =~= Map::empty());
        r
    }

    /// Number of workers of the pool; 0 means a fresh process per call.
    pub fn size(&self) -> (r: usize)
        ensures
            r == self.capacity(),
    {
        self.free.size()
    }

    fn find(&self, sid: &String) -> (r: Option<usize>)
        ensures
            match r {
                Some(i) => i < self.pairs().len() && self.pairs()[i as int].0 == sid@,
                None => !has_session(self.pairs(), sid@),
            },
    {
        proof {
            self.lemma_pairs_index();
        }
        let mut i: usize = 0;
        while i < self.bound.len()
            invariant
                i <= self.bound@.len(),
                self.pairs().len() == self.bound@.len(),
                forall|j: int| 0 <= j < i ==> self.pairs()[j].0 != sid@,
            decreases self.bound@.len() - i,
        {
            if self.bound[i].sid == *sid {
                return Some(i);
            }
            i = i + 1;
        }
        None
    }

    fn holds(&self, w: usize) -> (r: bool)
        ensures
            r == holds_worker(self.pairs(), w),
    {
        proof {
            self.lemma_pairs_index();
        }
        let mut i: usize = 0;
        while i < self.bound.len()
            invariant
                i <= self.bound@.len(),
                self.pairs().len() == self.bound@.len(),
                forall|j: int| 0 <= j < i ==> self.pairs()[j].1 != w,
            decreases self.bound@.len() - i,
        {
            if self.bound[i].worker == w {
                assert(self.pairs()[i as int].1 == w);
                return true;
            }
            i = i + 1;
        }
        false
    }

    /// Decides how a call for session `sid` is served; a bound worker is marked
    /// used at `now`.
    pub fn plan_bind(&mut self, sid: &String, now: u64) -> (r: BindPlan)
        requires
            old(self).wf(),
        ensures
            final(self).wf(),
            final(self).capacity() == old(self).capacity(),
            final(self).free_workers() == old(self).free_workers(),
            final(self).sessions() == old(self).sessions(),
            r == plan_for(old(self).capacity(), old(self).sessions(), sid@),
            r matches BindPlan::Reuse(w) ==> final(self).last_used_at() == old(self).last_used_at().update(w as int, now),
            !(r is Reuse) ==> final(self).last_used_at() == old(self).last_used_at(),
    {
        proof {
            lemma_session_map(self.pairs());
            self.lemma_pairs_index();
        }
        if self.free.size() == 0 {
            return BindPlan::OneShot;
        }
        match self.find(sid) {
            Some(i) => {
                let w = self.bound[i].worker;
                assert(self.pairs()[i as int].1 == w);
                self.last_used.set(w, now);
                BindPlan::Reuse(w)
            },
            None => BindPlan::Acquire,
        }
    }

    /// Hands out the most recently freed worker, if any is free.
    pub fn take_free(&mut self) -> (r: Option<usize>)
        requires
            old(self).wf(),
        ensures
            final(self).wf(),
            final(self).capacity() == old(self).capacity(),
            final(self).sessions() == old(self).sessions(),
            final(self).last_used_at() == old(self).last_used_at(),
            old(self).free_workers().len() > 0 ==> {
                &&& r == Some(old(self).free_workers().last())
                &&& final(self).free_workers() == old(self).free_workers().drop_last()
            },
            old(self).free_workers().len() == 0 ==> r is None && final(self).free_workers() == old(self).free_workers(),
            r matches Some(w) ==> final(self).in_flight(w),
    {
        let ghost old_free = self.free.free();
        let r = self.free.take();
        proof {
            let b = self.pairs();
            assert forall|i: int| 0 <= i < b.len() implies checked_out(
                self.free_workers(),
                self.capacity(),
                #[trigger] b[i].1,
            ) by {
                assert(!old_free.contains(b[i].1));
                if self.free_workers().contains(b[i].1) {
                    let j = choose|j: int|
                        0 <= j < self.free_workers().len() && self.free_workers()[j] == b[i].1;
                    assert(old_free[j] == b[i].1);
                }
            }
            if let Some(w) = r {
                assert(old_free.contains(w)) by {
                    assert(old_free[old_free.len() - 1] == w);
                }
                assert(!holds_worker(b, w));
                self.lemma_bound_iff(w);
            }
        }
        r
    }

    /// Binds session `sid` to worker `w`, marked used at `now`; refused, with
    /// nothing changed, unless `w` is held by a call and `sid` is not bound.
    pub fn record(&mut self, sid: String, w: usize, now: u64) -> (r: bool)
        requires
            old(self).wf(),
        ensures
            final(self).wf(),
            final(self).capacity() == old(self).capacity(),
            final(self).free_workers() == old(self).free_workers(),
            r == (old(self).in_flight(w) && !old(self).sessions().contains_key(sid@)),
            r ==> final(self).sessions() == old(self).sessions().insert(sid@, w) && final(self).last_used_at() == old(self).last_used_at().update(w as int, now),
            !r ==> final(self).sessions() == old(self).sessions() && final(self).last_used_at()
                == old(self).last_used_at(),
    {
        let ghost k = sid@;
        let ghost b = self.pairs();
        proof {
            lemma_session_map(b);
            self.lemma_bound_iff(w);
        }
        if w >= self.free.size() || self.free.is_free(w) || self.holds(w) {
            return false;
        }
        if self.find(&sid).is_some() {
            return false;
        }
        proof {
            lemma_push(b, (k, w));
        }
        self.bound.push(Binding { sid, worker: w });
        self.last_used.set(w, now);
        proof {
            self.lemma_pairs_index();
            assert(self.pairs() =~= b.push((k, w)));
            let c = self.pairs();
            assert(workers_unique(c)) by {
                assert forall|x: int, y: int|
                    0 <= x < c.len() && 0 <= y < c.len() && x != y implies c[x].1 != c[y].1 by {
                    if x < b.len() && y < b.len() {
                        assert(c[x] == b[x] && c[y] == b[y]);
                    } else if x < b.len() {
                        assert(c[x] == b[x]);
                    } else {
                        assert(c[y] == b[y]);
                    }
                }
            }
            assert forall|i: int| 0 <= i < c.len() implies checked_out(
                self.free_workers(),
                self.capacity(),
                #[trigger] c[i].1,
            ) by {
                if i < b.len() {
                    assert(c[i] == b[i]);
                }
            }
        }
        true
    }

    /// Returns worker `w`, held by a call, to the free list; refused, with
    /// nothing changed, unless `w` is held by a call.
    pub fn put_back(&mut self, w: usize) -> (r: bool)
        requires
            old(self).wf(),
        ensures
            final(self).wf(),
            final(self).capacity() == old(self).capacity(),
            final(self).sessions() == old(self).sessions(),
            final(self).last_used_at() == old(self).last_used_at(),
            r == old(self).in_flight(w),
            r ==> final(self).free_workers() == old(self).free_workers().push(w),
            !r ==> final(self).free_workers() == old(self).free_workers(),
    {
        proof {
            self.lemma_bound_iff(w);
        }
        if self.holds(w) {
            return false;
        }
        let ghost old_free = self.free.free();
        let r = self.free.put_back(w);
        proof {
            let b = self.pairs();
            assert forall|i: int| 0 <= i < b.len() implies checked_out(
                self.free_workers(),
                self.capacity(),
                #[trigger] b[i].1,
            ) by {
                if r {
                    assert(b[i].1 != w);
                    if self.free_workers().contains(b[i].1) {
                        let j = choose|j: int|
                            0 <= j < self.free_workers().len() && self.free_workers()[j] == b[i].1;
                        assert(old_free[j] == b[i].1);
                    }
                }
            }
        }
        r
    }

    /// Releases session `sid`: its worker goes back to the free list. A session
    /// that is not bound is left alone.
    pub fn unbind(&mut self, sid: &String) -> (r: Option<usize>)
        requires
            old(self).wf(),
        ensures
            final(self).wf(),
            final(self).capacity() == old(self).capacity(),
            final(self).last_used_at() == old(self).last_used_at(),
            old(self).sessions().contains_key(sid@) ==> {
                &&& r == Some(old(self).sessions()[sid@])
                &&& final(self).sessions() == old(self).sessions().remove(sid@)
                &&& final(self).free_workers() == old(self).free_workers().push(
                    old(self).sessions()[sid@],
                )
            },
            !old(self).sessions().contains_key(sid@) ==> {
                &&& r is None
                &&& final(self).sessions() == old(self).sessions()
                &&& final(self).free_workers() == old(self).free_workers()
            },
    {
        let ghost b = self.pairs();
        let ghost old_free = self.free.free();
        proof {
            lemma_session_map(b);
            self.lemma_pairs_index();
        }
        match self.find(sid) {
            None => None,
            Some(i) => {
                let ghost bv = self.bound@;
                let x = self.bound.remove(i);
                let w = x.worker;
                proof {
                    assert(b[i as int] == (sid@, w));
                    lemma_remove(b, i as int);
                    bv.remove_ensures(i as int);
                    b.remove_ensures(i as int);
                    self.lemma_pairs_index();
                    assert(self.pairs() =~= b.remove(i as int));
                    assert(checked_out(old(self).free_workers(), old(self).capacity(), b[i as int].1));
                    assert(checked_out(old_free, self.capacity(), w));
                }
                let ok = self.free.put_back(w);
                proof {
                    let c = self.pairs();
                    assert forall|j: int| 0 <= j < c.len() implies checked_out(
                        self.free_workers(),
                        self.capacity(),
                        #[trigger] c[j].1,
                    ) by {
                        assert(holds_worker(c, c[j].1));
                        assert(holds_worker(b, c[j].1) && c[j].1 != w);
                        let jb = choose|jb: int| 0 <= jb < b.len() && b[jb].1 == c[j].1;
                        assert(checked_out(old_free, self.capacity(), b[jb].1));
                        if self.free_workers().contains(c[j].1) {
                            let q = choose|q: int|
                                0 <= q < self.free_workers().len() && self.free_workers()[q]
                                    == c[j].1;
                            assert(old_free[q] == c[j].1);
                        }
                    }
                }
                Some(w)
            },
        }
    }

    /// Releases session `sid` as `unbind` does, but only if its worker, at
    /// `now`, has gone unused for at least `idle`; otherwise nothing changes.
    pub fn unbind_if_idle(&mut self, sid: &String, now: u64, idle: u64) -> (r: Option<usize>)
        requires
            old(self).wf(),
        ensures
            final(self).wf(),
            final(self).capacity() == old(self).capacity(),
            final(self).last_used_at() == old(self).last_used_at(),
            old(self).sessions().contains_key(sid@) && is_idle(
                old(self).last_used_at()[old(self).sessions()[sid@] as int],
                now,
                idle,
            ) ==> {
                &&& r == Some(old(self).sessions()[sid@])
                &&& final(self).sessions() == old(self).sessions().remove(sid@)
                &&& final(self).free_workers() == old(self).free_workers().push(
                    old(self).sessions()[sid@],
                )
            },
            !(old(self).sessions().contains_key(sid@) && is_idle(
                old(self).last_used_at()[old(self).sessions()[sid@] as int],
                now,
                idle,
            )) ==> {
                &&& r is None
                &&& final(self).sessions() == old(self).sessions()
                &&& final(self).free_workers() == old(self).free_workers()
            },
    {
        proof {
            lemma_session_map(self.pairs());
            self.lemma_pairs_index();
        }
        match self.find(sid) {
            None => None,
            Some(i) => {
                let w = self.bound[i].worker;
                assert(self.pairs()[i as int].1 == w);
                assert(checked_out(self.free_workers(), self.capacity(), self.pairs()[i as int].1));
                let ts = self.last_used[w];
                if now >= ts && now - ts >= idle {
                    self.unbind(sid)
                } else {
                    None
                }
            },
        }
    }

    /// The sessions whose worker, at `now`, has gone unused for at least `idle`.
    pub fn idle_sessions(&self, now: u64, idle: u64) -> (r: Vec<String>)
        requires
            self.wf(),
        ensures
            names(r@).no_duplicates(),
            forall|k: Seq<char>|
                #[trigger] names(r@).contains(k) <==> self.sessions().contains_key(
                    k,
                ) && is_idle(self.last_used_at()[self.sessions()[k] as int], now, idle),
    {
        let ghost b = self.pairs();
        proof {
            lemma_session_map(b);
            self.lemma_pairs_index();
        }
        let mut out: Vec<String> = Vec::new();
        let mut i: usize = 0;
        while i < self.bound.len()
            invariant
                self.wf(),
                b == self.pairs(),
                b.len() == self.bound@.len(),
                i <= b.len(),
                forall|j: int| 0 <= j < b.len() ==> #[trigger] b[j] == (self.bound@[j].sid@, self.bound@[j].worker),
                names(out@).no_duplicates(),
                forall|k: Seq<char>|
                    #[trigger] names(out@).contains(k) <==> exists|j: int|
                        0 <= j < i && b[j].0 == k && is_idle(self.last_used@[b[j].1 as int], now, idle),
            decreases b.len() - i,
        {
            let w = self.bound[i].worker;
            assert(b[i as int].1 == w);
            assert(w < self.last_used@.len());
            let ts = self.last_used[w];
            let ghost prev = names(out@);
            if now >= ts && now - ts >= idle {
                let s = self.bound[i].sid.clone();
                out.push(s);
                let ghost cur = names(out@);
                assert(cur =~= prev.push(b[i as int].0));
                assert(!prev.contains(b[i as int].0)) by {
                    if prev.contains(b[i as int].0) {
                        let j = choose|j: int|
                            0 <= j < i && b[j].0 == b[i as int].0 && is_idle(
                                self.last_used@[b[j].1 as int],
                                now,
                                idle,
                            );
                        assert(false);
                    }
                }
                assert forall|k: Seq<char>| #[trigger] cur.contains(k) <==> exists|j: int|
                    0 <= j < i + 1 && b[j].0 == k && is_idle(self.last_used@[b[j].1 as int], now, idle) by {
                    if cur.contains(k) && k != b[i as int].0 {
                        let q = choose|q: int| 0 <= q < cur.len() && cur[q] == k;
                        assert(prev[q] == k);
                        assert(prev.contains(k));
                    }
                    if exists|j: int|
                        0 <= j < i + 1 && b[j].0 == k && is_idle(self.last_used@[b[j].1 as int], now, idle) {
                        let j = choose|j: int|
                            0 <= j < i + 1 && b[j].0 == k && is_idle(self.last_used@[b[j].1 as int], now, idle);
                        if j < i {
                            assert(prev.contains(k));
                            let q = choose|q: int| 0 <= q < prev.len() && prev[q] == k;
                            assert(cur[q] == k);
                        } else {
                            assert(cur[prev.len() as int] == k);
                        }
                    }
                }
            } else {
                assert forall|k: Seq<char>| #[trigger] prev.contains(k) <==> exists|j: int|
                    0 <= j < i + 1 && b[j].0 == k && is_idle(self.last_used@[b[j].1 as int], now, idle) by {
                    if exists|j: int|
                        0 <= j < i + 1 && b[j].0 == k && is_idle(self.last_used@[b[j].1 as int], now, idle) {
                        let j = choose|j: int|
                            0 <= j < i + 1 && b[j].0 == k && is_idle(self.last_used@[b[j].1 as int], now, idle);
                        assert(j < i);
                    }
                }
            }
            i = i + 1;
        }
        proof {
            let outv = names(out@);
            assert forall|k: Seq<char>| #[trigger] outv.contains(k) <==> self.sessions().contains_key(k)
                && is_idle(self.last_used_at()[self.sessions()[k] as int], now, idle) by {
                if self.sessions().contains_key(k) {
                    let j = choose|j: int| 0 <= j < b.len() && b[j].0 == k;
                    assert(self.sessions()[k] == b[j].1);
                }
                if outv.contains(k) {
                    let j = choose|j: int|
                        0 <= j < b.len() && b[j].0 == k && is_idle(self.last_used@[b[j].1 as int], now, idle);
                    assert(self.sessions().contains_key(b[j].0));
                }
            }
        }
        out
    }
}

/// A pool without workers serves every call, of any session, with a fresh
/// process, as a one-shot call would.
pub proof fn lemma_empty_pool_is_one_shot(m: Map<Seq<char>, usize>, k: Seq<char>)
    ensures
        plan_for(0, m, k) == BindPlan::OneShot,
{
}

/// Once a call has bound session `k` to worker `w`, the next call of `k` is
/// served by that same worker, while the plans of the other sessions stay as
/// they were.
pub proof fn lemma_binding_is_sticky(
    cap: nat,
    m: Map<Seq<char>, usize>,
    k: Seq<char>,
    w: usize,
    other: Seq<char>,
)
    requires
        cap > 0,
        other != k,
    ensures
        plan_for(cap, m.insert(k, w), k) == BindPlan::Reuse(w),
        plan_for(cap, m.insert(k, w), other) == plan_for(cap, m, other),
{
}

/// After session `k` is released its next call takes whichever worker is free,
/// not necessarily the one it had; releasing a session that is not bound
/// changes nothing.
pub proof fn lemma_unbind_releases(cap: nat, m: Map<Seq<char>, usize>, k: Seq<char>)
    requires
        cap > 0,
    ensures
        plan_for(cap, m.remove(k), k) == BindPlan::Acquire,
        !m.contains_key(k) ==> m.remove(k) == m,
{
    if !m.contains_key(k) {
        assert(m.remove(k) =~= m);
    }
}

/// The free workers and the workers bound to sessions together never
/// outnumber the pool: no worker is duplicated, and none is both free and
/// bound.
pub proof fn lemma_within_capacity(p: AffinityPool)
    requires
        p.wf(),
    ensures
        p.free_workers().len() + p.sessions().len() <= p.capacity(),
{
    p.lemma_within_capacity_inner();
}

impl AffinityPool {
    proof fn lemma_within_capacity_inner(&self)
        requires
            self.wf(),
        ensures
            self.free_workers().len() + self.sessions().len() <= self.capacity(),
    {
        let b = self.pairs();
        let free = self.free_workers();
        let cap = self.capacity();
        let keys = b.map_values(|x: (Seq<char>, usize)| x.0);
        let ws = b.map_values(|x: (Seq<char>, usize)| x.1);
        assert(keys.no_duplicates()) by {
            assert forall|i: int, j: int| 0 <= i < keys.len() && 0 <= j < keys.len() && i != j implies keys[i]
                != keys[j] by {
                assert(keys[i] == b[i].0 && keys[j] == b[j].0);
            }
        }
        assert(ws.no_duplicates()) by {
            assert forall|i: int, j: int| 0 <= i < ws.len() && 0 <= j < ws.len() && i != j implies ws[i]
                != ws[j] by {
                assert(ws[i] == b[i].1 && ws[j] == b[j].1);
            }
        }
        keys.unique_seq_to_set();
        ws.unique_seq_to_set();
        free.unique_seq_to_set();
        lemma_session_map(b);
        assert(self.sessions().dom() =~= keys.to_set()) by {
            assert forall|k: Seq<char>| self.sessions().dom().contains(k) <==> keys.to_set().contains(k) by {
                if self.sessions().dom().contains(k) {
                    let i = choose|i: int| 0 <= i < b.len() && b[i].0 == k;
                    assert(keys[i] == k);
                }
                if keys.to_set().contains(k) {
                    let i = choose|i: int| 0 <= i < keys.len() && keys[i] == k;
                    assert(b[i].0 == k);
                }
            }
        }
        self.free.lemma_capacity_fits();
        let cu = cap as usize;
        let full = Set::<usize>::range(0, cu);
        vstd::set_lib::range_set_properties::<usize>(0, cu);
        let fs = free.to_set();
        let wset = ws.to_set();
        assert(fs.disjoint(wset)) by {
            assert forall|w: usize| !(fs.contains(w) && wset.contains(w)) by {
                if fs.contains(w) && wset.contains(w) {
                    let i = choose|i: int| 0 <= i < ws.len() && ws[i] == w;
                    assert(ws[i] == b[i].1);
                    assert(checked_out(free, cap, b[i].1));
                }
            }
        }
        assert((fs + wset).subset_of(full)) by {
            assert forall|w: usize| (fs + wset).contains(w) implies full.contains(w) by {
                if fs.contains(w) {
                    let i = choose|i: int| 0 <= i < free.len() && free[i] == w;
                    assert(free[i] < cap);
                } else {
                    let i = choose|i: int| 0 <= i < ws.len() && ws[i] == w;
                    assert(ws[i] == b[i].1);
                    assert(checked_out(free, cap, b[i].1));
                }
            }
        }
        vstd::set_lib::lemma_len_subset(fs + wset, full);
        vstd::set_lib::lemma_set_disjoint_lens(fs, wset);
    }
}

} // verus!
