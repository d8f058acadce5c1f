use vstd::prelude::*;

use crate::error::{Error, Result};

verus! {

/// An item to do.
#[derive(Clone, Debug)]
pub struct Todo {
    pub id: i32,
    pub value: String,
    pub done: bool,
}

/// Changes to the item with id `id`; a field left `None` is kept.
#[derive(Clone, Debug)]
pub struct TodoUpdate {
    pub id: i32,
    pub value: Option<String>,
    pub done: Option<bool>,
}

/// A search: by text, ignoring case, and by status.
#[derive(Clone, Debug)]
pub struct TodoQuery {
    pub value: Option<String>,
    pub done: Option<bool>,
}

/// Ids of items to delete, separated by commas.
#[derive(Clone, Debug)]
pub struct TodoDelete {
    pub ids: String,
}

/// What `str::to_lowercase` makes of a text.
pub uninterp spec fn lower_of(s: Seq<char>) -> Seq<char>;

/// `c` with an ASCII capital letter turned small.
pub open spec fn ascii_lower(c: char) -> char {
    if 'A' <= c && c <= 'Z' {
        ((c as u32) + 32) as char
    } else {
        c
    }
}

/// `n` occurs in `h` as a run of consecutive characters.
pub open spec fn has_substring(h: Seq<char>, n: Seq<char>) -> bool {
    exists|i: int| 0 <= i <= h.len() - n.len() && #[trigger] h.subrange(i, i + n.len()) == n
}

/// Relies on `str::to_lowercase`: the result depends on the text alone.
#[verifier::external_body]
fn lowercase(s: &str) -> (r: String)
    ensures
        r@ == lower_of(s@),
{
    s.to_lowercase()
}

/// Relies on `str::make_ascii_lowercase`: ASCII capitals become small letters,
/// everything else stays.
#[verifier::external_body]
fn make_ascii_lowercase(s: &mut String)
    ensures
        final(s)@ == old(s)@.map_values(|c: char| ascii_lower(c)),
{
    s.make_ascii_lowercase()
}

/// Relies on `str::contains` with a text pattern: whether it occurs in `h`.
#[verifier::external_body]
fn contains_text(h: &str, n: &str) -> (r: bool)
    ensures
        r == has_substring(h@, n@),
{
    h.contains(n)
}

/// Largest id in `s`, which is not empty.
pub open spec fn max_id(s: Seq<Todo>) -> int
    decreases s.len(),
{
    if s.len() <= 1 {
        if s.len() == 1 {
            s[0].id as int
        } else {
            0
        }
    } else {
        let m = max_id(s.drop_last());
        if s.last().id > m {
            s.last().id as int
        } else {
            m
        }
    }
}

/// The id a new item gets: one past the largest, or 1 in an empty store.
pub open spec fn next_id(s: Seq<Todo>) -> int {
    if s.len() == 0 {
        1
    } else {
        max_id(s) + 1
    }
}

/// `i` is the first position of an item with id `id` in `s`.
pub open spec fn first_with_id(s: Seq<Todo>, id: i32, i: int) -> bool {
    &&& 0 <= i < s.len()
    &&& s[i].id == id
    &&& forall|j: int| 0 <= j < i ==> s[j].id != id
}

pub open spec fn has_id(s: Seq<Todo>, id: i32) -> bool {
    exists|i: int| 0 <= i < s.len() && s[i].id == id
}

/// `t` with the changes of `u`.
pub open spec fn patched(t: Todo, u: TodoUpdate) -> Todo {
    Todo {
        id: t.id,
        value: match u.value {
            Some(v) => v,
            None => t.value,
        },
        done: match u.done {
            Some(d) => d,
            None => t.done,
        },
    }
}

/// The text a query searches for, in the form it is compared in.
pub open spec fn needle_of(q: TodoQuery) -> Option<Seq<char>> {
    match q.value {
        Some(v) => Some(v@.map_values(|c: char| ascii_lower(c))),
        None => None,
    }
}

/// An item whose text lowered is `lowered` and whose status is `done` matches
/// the search for `needle` and `want`.
pub open spec fn matches(
    lowered: Seq<char>,
    done: bool,
    needle: Option<Seq<char>>,
    want: Option<bool>,
) -> bool {
    &&& (match needle {
        Some(n) => has_substring(lowered, n),
        None => true,
    })
    &&& (match want {
        Some(d) => done == d,
        None => true,
    })
}

/// `t` is found by query `q`.
pub open spec fn found_by(t: Todo, q: TodoQuery) -> bool {
    matches(lower_of(t.value@), t.done, needle_of(q), q.done)
}

/// An in-memory store of items to do.
pub trait TodoRepo {
    /// The items, in the order they were created.
    spec fn items(&self) -> Seq<Todo>;

    /// Stores `item` under a new id, one past the largest in use, and returns
    /// that id. Fails when the largest id leaves no room.
    fn create(&mut self, item: Todo) -> (r: Result<i32>)
        ensures
            next_id(old(self).items()) <= i32::MAX ==> {
                &&& r == Ok::<i32, Error>(next_id(old(self).items()) as i32)
                &&& final(self).items() == old(self).items().push(
                    Todo { id: next_id(old(self).items()) as i32, ..item },
                )
            },
            next_id(old(self).items()) > i32::MAX ==> {
                &&& r is Err && r->Err_0 is Other
                &&& final(self).items() == old(self).items()
            },
    ;

    /// Applies `item` to the first item with its id.
    fn update(&mut self, item: TodoUpdate) -> (r: Result<()>)
        ensures
            item.id <= 0 || (item.value is Some || item.done is Some) && !has_id(
                old(self).items(),
                item.id,
            ) ==> r == Err::<(), Error>(Error::IdNotFound { id: item.id }) && final(self).items()
                == old(self).items(),
            item.id > 0 && item.value is None && item.done is None ==> r == Ok::<(), Error>(())
                && final(self).items() == old(self).items(),
            forall|i: int|
                #![trigger first_with_id(old(self).items(), item.id, i)]
                item.id > 0 && (item.value is Some || item.done is Some) && first_with_id(
                    old(self).items(),
                    item.id,
                    i,
                ) ==> r == Ok::<(), Error>(()) && final(self).items() == old(self).items().update(
                    i,
                    patched(old(self).items()[i], item),
                ),
    ;

    /// Removes every item whose id is in `ids`.
    fn delete(&mut self, ids: Vec<i32>) -> (r: Result<()>)
        ensures
            r == Ok::<(), Error>(()),
            final(self).items() == old(self).items().filter(|t: Todo| !ids@.contains(t.id)),
    ;

    /// The first item with id `id`.
    fn fetch(&self, id: i32) -> (r: Result<Todo>)
        ensures
            id <= 0 || !has_id(self.items(), id) ==> r == Err::<Todo, Error>(
                Error::IdNotFound { id },
            ),
            forall|i: int|
                #![trigger first_with_id(self.items(), id, i)]
                id > 0 && first_with_id(self.items(), id, i) ==> r == Ok::<Todo, Error>(
                    self.items()[i],
                ),
    ;

    /// The items found by `req`, in store order.
    fn query(&self, req: TodoQuery) -> (r: Result<Vec<Todo>>)
        ensures
            r matches Ok(v) && v@ == self.items().filter(|t: Todo| found_by(t, req)),
    ;
}

/// Whether an item whose text, lowered, is `lowered` and whose status is `done`
/// is found by a search for `needle` (already in compared form) and `want`.
pub fn todo_matches(lowered: &str, done: bool, needle: &Option<String>, want: Option<bool>) -> (r:
    bool)
    ensures
        r == matches(
            lowered@,
            done,
            match needle {
                Some(n) => Some(n@),
                None => None,
            },
            want,
        ),
{
    let text_ok = match needle {
        Some(n) => contains_text(lowered, n.as_str()),
        None => true,
    };
    let done_ok = match want {
        Some(d) => done == d,
        None => true,
    };
    text_ok && done_ok
}

proof fn lemma_filter_step<A>(s: Seq<A>, p: spec_fn(A) -> bool, i: int)
    requires
        0 <= i < s.len(),
    ensures
        s.subrange(0, i + 1).filter(p) == (if p(s[i]) {
            s.subrange(0, i).filter(p).push(s[i])
        } else {
            s.subrange(0, i).filter(p)
        }),
{
    reveal(Seq::filter);
    assert(s.subrange(0, i + 1).drop_last() =~= s.subrange(0, i));
}

fn copy_todo(t: &Todo) -> (r: Todo)
    ensures
        r == *t,
{
    Todo { id: t.id, value: t.value.clone(), done: t.done }
}

/// The store kept in memory.
pub struct TodoStore {
    data: Vec<Todo>,
}

/// An empty store.
pub fn get_todo_store() -> (r: TodoStore)
    ensures
        r.items() == Seq::<Todo>::empty(),
{
    TodoStore { data: Vec::new() }
}

impl TodoStore {
    fn find(&self, id: i32) -> (r: Option<usize>)
        ensures
            r matches Some(i) ==> first_with_id(self.data@, id, i as int),
            r is None ==> !has_id(self.data@, id),
    {
        let mut i: usize = 0;
        while i < self.data.len()
            invariant
                i <= self.data@.len(),
                forall|j: int| 0 <= j < i ==> self.data@[j].id != id,
            decreases self.data@.len() - i,
        {
            if self.data[i].id == id {
                return Some(i);
            }
            i = i + 1;
        }
        None
    }
}

proof fn lemma_first_unique(s: Seq<Todo>, id: i32, i: int, j: int)
    requires
        first_with_id(s, id, i),
        first_with_id(s, id, j),
    ensures
        i == j,
{
    if i < j {
        assert(s[i].id != id);
    } else if j < i {
        assert(s[j].id != id);
    }
}

fn contains_id(ids: &Vec<i32>, id: i32) -> (r: bool)
    ensures
        r == ids@.contains(id),
{
    let mut i: usize = 0;
    while i < ids.len()
        invariant
            i <= ids@.len(),
            forall|j: int| 0 <= j < i ==> ids@[j] != id,
        decreases ids@.len() - i,
    {
        if ids[i] == id {
            assert(ids@[i as int] == id);
            return true;
        }
        i = i + 1;
    }
    false
}

impl TodoRepo for TodoStore {
    closed spec fn items(&self) -> Seq<Todo> {
        self.data@
    }

    fn create(&mut self, item: Todo) -> (r: Result<i32>) {
        let ghost s = self.data@;
        let mut best: Option<i32> = None;
        let mut i: usize = 0;
        while i < self.data.len()
            invariant
                i <= s.len(),
                s == self.data@,
                i == 0 ==> best is None,
                i > 0 ==> best == Some(max_id(s.subrange(0, i as int)) as i32),
                i > 0 ==> i32::MIN <= max_id(s.subrange(0, i as int)) <= i32::MAX,
            decreases s.len() - i,
        {
            let x = self.data[i].id;
            proof {
                assert(s.subrange(0, i + 1).drop_last() =~= s.subrange(0, i as int));
                assert(s.subrange(0, i + 1).last() == s[i as int]);
            }
            best = match best {
                None => Some(x),
                Some(b) => if x > b {
                    Some(x)
                } else {
                    Some(b)
                },
            };
            i = i + 1;
        }
        assert(s.subrange(0, s.len() as int) =~= s);
        let new_id = match best {
            None => 1,
            Some(b) => {
                if b == i32::MAX {
                    return Err(Error::Other("no id left".to_owned()));
                }
                b + 1
            },
        };
        let t = Todo { id: new_id, value: item.value, done: item.done };
        self.data.push(t);
        Ok(new_id)
    }

    fn update(&mut self, item: TodoUpdate) -> (r: Result<()>) {
        if item.id <= 0 {
            return Err(Error::IdNotFound { id: item.id });
        }
        if item.value.is_none() && item.done.is_none() {
            return Ok(());
        }
        match self.find(item.id) {
            None => Err(Error::IdNotFound { id: item.id }),
            Some(i) => {
                let ghost s = self.data@;
                let ghost u = item;
                let value = match item.value {
                    Some(v) => v,
                    None => self.data[i].value.clone(),
                };
                let done = match item.done {
                    Some(d) => d,
                    None => self.data[i].done,
                };
                let t = Todo { id: self.data[i].id, value, done };
                assert(t == patched(s[i as int], u));
                self.data.set(i, t);
                proof {
                    assert forall|j: int| #[trigger]
                        first_with_id(s, u.id, j) implies j == i as int by {
                        lemma_first_unique(s, u.id, i as int, j);
                    }
                }
                Ok(())
            },
        }
    }

    fn delete(&mut self, ids: Vec<i32>) -> (r: Result<()>) {
        let ghost s = self.data@;
        let ghost p = |t: Todo| !ids@.contains(t.id);
        let mut kept: Vec<Todo> = Vec::new();
        let mut i: usize = 0;
        while i < self.data.len()
            invariant
                i <= s.len(),
                s == self.data@,
                p == (|t: Todo| !ids@.contains(t.id)),
                kept@ == s.subrange(0, i as int).filter(p),
            decreases s.len() - i,
        {
            proof {
                lemma_filter_step(s, p, i as int);
            }
            if !contains_id(&ids, self.data[i].id) {
                kept.push(copy_todo(&self.data[i]));
            }
            i = i + 1;
        }
        assert(s.subrange(0, s.len() as int) =~= s);
        self.data = kept;
        Ok(())
    }

    fn fetch(&self, id: i32) -> (r: Result<Todo>) {
        if id <= 0 {
            return Err(Error::IdNotFound { id });
        }
        match self.find(id) {
            Some(i) => {
                proof {
                    assert forall|j: int| #[trigger]
                        first_with_id(self.data@, id, j) implies j == i as int by {
                        lemma_first_unique(self.data@, id, i as int, j);
                    }
                }
                Ok(copy_todo(&self.data[i]))
            },
            None => Err(Error::IdNotFound { id }),
        }
    }

    fn query(&self, req: TodoQuery) -> (r: Result<Vec<Todo>>) {
        let ghost s = self.data@;
        let ghost q = req;
        let ghost p = |t: Todo| found_by(t, q);
        let mut needle = req.value;
        if let Some(v) = &mut needle {
            make_ascii_lowercase(v);
        }
        assert(match needle {
            Some(n) => needle_of(q) == Some(n@),
            None => needle_of(q) is None,
        });
        let mut out: Vec<Todo> = Vec::new();
        let mut i: usize = 0;
        while i < self.data.len()
            invariant
                i <= s.len(),
                s == self.data@,
                p == (|t: Todo| found_by(t, q)),
                req.done == q.done,
                match needle {
                    Some(n) => needle_of(q) == Some(n@),
                    None => needle_of(q) is None,
                },
                out@ == s.subrange(0, i as int).filter(p),
            decreases s.len() - i,
        {
            proof {
                lemma_filter_step(s, p, i as int);
            }
            let x = &self.data[i];
            let keep = match &needle {
                Some(_) => {
                    let lowered = lowercase(x.value.as_str());
                    todo_matches(lowered.as_str(), x.done, &needle, req.done)
                },
                None => todo_matches("", x.done, &needle, req.done),
            };
            if keep {
                out.push(copy_todo(x));
            }
            i = i + 1;
        }
        assert(s.subrange(0, s.len() as int) =~= s);
        Ok(out)
    }
}

} // verus!
