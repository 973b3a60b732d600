//! The variable context: a read-only mapping from a name to the ordered list
//! of string values bound to it.  A binding of length one is a scalar, a
//! longer one is the iterable a `for` directive walks.

use vstd::prelude::*;
use crate::text::str_eq;

verus! {

/// A mapping from variable names to ordered lists of bound string values.
/// Immutable during a render pass; viewed as a `Map` from the name's
/// characters to the sequence of bound values.
pub struct Context {
    entries: Vec<(String, Vec<String>)>,
}

impl View for Context {
    type V = Map<Seq<char>, Seq<Seq<char>>>;

    closed spec fn view(&self) -> Map<Seq<char>, Seq<Seq<char>>> {
        Map::new(
            |k: Seq<char>|
                exists|i: int|
                    0 <= i < self.entries@.len() && #[trigger] self.entries@[i].0@ == k,
            |k: Seq<char>|
                {
                    let i = choose|i: int|
                        0 <= i < self.entries@.len() && #[trigger] self.entries@[i].0@ == k;
                    self.entries@[i].1.deep_view()
                },
        )
    }
}

/// The position of the first entry of `es` whose name is `key`.
fn find_key(es: &Vec<(String, Vec<String>)>, key: &str) -> (r: Option<usize>)
    ensures
        match r {
            Some(i) => i < es@.len() && es@[i as int].0@ == key@ && forall|j: int|
                0 <= j < i ==> #[trigger] es@[j].0@ != key@,
            None => forall|j: int| 0 <= j < es@.len() ==> #[trigger] es@[j].0@ != key@,
        },
{
    let n = es.len();
    let mut i: usize = 0;
    while i < n
        invariant
            i <= n,
            n == es@.len(),
            forall|j: int| 0 <= j < i ==> #[trigger] es@[j].0@ != key@,
        decreases n - i,
    {
        if str_eq(es[i].0.as_str(), key) {
            return Some(i);
        }
        i += 1;
    }
    None
}

impl Context {
    /// No two entries bind the same name.
    #[verifier::type_invariant]
    spec fn wf(&self) -> bool {
        forall|i: int, j: int|
            0 <= i < j < self.entries@.len() ==> #[trigger] self.entries@[i].0@ != #[trigger] self.entries@[j].0@
    }

    /// Each entry is visible in the view under its own name.
    proof fn lemma_entries_view(&self)
        requires
            self.wf(),
        ensures
            forall|i: int|
                0 <= i < self.entries@.len() ==> self@.contains_key(
                    #[trigger] self.entries@[i].0@,
                ) && self@[self.entries@[i].0@] == self.entries@[i].1.deep_view(),
    {
        assert forall|i: int| 0 <= i < self.entries@.len() implies self@.contains_key(
            #[trigger] self.entries@[i].0@,
        ) && self@[self.entries@[i].0@] == self.entries@[i].1.deep_view() by {
            let k = self.entries@[i].0@;
            let j = choose|j: int|
                0 <= j < self.entries@.len() && #[trigger] self.entries@[j].0@ == k;
            assert(j == i);
        }
    }

    /// An empty context.
    pub fn new() -> (c: Context)
        ensures
            c@ == Map::<Seq<char>, Seq<Seq<char>>>::empty(),
    {
        let c = Context { entries: Vec::new() };
        proof {
            assert(c@ =~= Map::<Seq<char>, Seq<Seq<char>>>::empty());
        }
        c
    }

    /// Binds `key` to `values`, replacing any earlier binding of `key`.
    pub fn insert(&mut self, key: String, values: Vec<String>)
        ensures
            final(self)@ == old(self)@.insert(key@, values.deep_view()),
    {
        proof {
            use_type_invariant(&*self);
            self.lemma_entries_view();
        }
        let ghost old_self = *self;
        let mut es: Vec<(String, Vec<String>)> = Vec::new();
        core::mem::swap(&mut es, &mut self.entries);
        let found = find_key(&es, key.as_str());
        match found {
            Some(i) => {
                es[i] = (key, values);
            },
            None => {
                es.push((key, values));
            },
        }
        proof {
            assert forall|a: int, b: int| 0 <= a < b < es@.len() implies #[trigger] es@[a].0@
                != #[trigger] es@[b].0@ by {
                if b < old_self.entries@.len() {
                    assert(old_self.entries@[a].0@ != old_self.entries@[b].0@);
                }
            }
        }
        core::mem::swap(&mut es, &mut self.entries);
        proof {
            self.lemma_entries_view();
            let target = old_self@.insert(key@, values.deep_view());
            assert forall|k: Seq<char>| #![all_triggers] true implies {
                (self@.contains_key(k) <==> target.contains_key(k)) && (self@.contains_key(k)
                    ==> self@[k] == target[k])
            } by {
                let n = self.entries@.len();
                let ghost kept = match found {
                    Some(i) => i as int,
                    None => n - 1,
                };
                assert(self.entries@[kept].0@ == key@);
                if k == key@ {
                    assert(self@.contains_key(k) && self@[k] == values.deep_view());
                } else {
                    if old_self@.contains_key(k) {
                        let j = choose|j: int|
                            0 <= j < old_self.entries@.len()
                                && #[trigger] old_self.entries@[j].0@ == k;
                        assert(self.entries@[j].0@ == k);
                    }
                    if self@.contains_key(k) {
                        let j = choose|j: int|
                            0 <= j < self.entries@.len() && #[trigger] self.entries@[j].0@ == k;
                        assert(j != kept);
                        assert(old_self.entries@[j].0@ == k);
                    }
                }
            }
            assert(self@ =~= target);
        }
    }

    /// Looks `key` up; `None` exactly when `key` is unbound.
    pub fn get(&self, key: &str) -> (r: Option<&Vec<String>>)
        ensures
            match r {
                Some(v) => self@.contains_key(key@) && v.deep_view() == self@[key@],
                None => !self@.contains_key(key@),
            },
    {
        proof {
            use_type_invariant(self);
            self.lemma_entries_view();
        }
        let n = self.entries.len();
        let mut i: usize = 0;
        while i < n
            invariant
                i <= n,
                n == self.entries@.len(),
                self.wf(),
                forall|j: int| 0 <= j < i ==> #[trigger] self.entries@[j].0@ != key@,
            decreases n - i,
        {
            if str_eq(self.entries[i].0.as_str(), key) {
                proof {
                    self.lemma_entries_view();
                }
                return Some(&self.entries[i].1);
            }
            i += 1;
        }
        proof {
            if self@.contains_key(key@) {
                let j = choose|j: int|
                    0 <= j < self.entries@.len() && #[trigger] self.entries@[j].0@ == key@;
            }
        }
        None
    }
}

} // verus!
