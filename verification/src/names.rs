//! A table from names to values that keeps its names in order.

use crate::text::{compare, lemma_lex_equal, lemma_lex_flip, lemma_lex_transitive, lex_lt, Order};
use vstd::prelude::*;

verus! {

/// What is bound to `name` in `entries`, if anything.
pub open spec fn lookup<M>(entries: Seq<(Seq<char>, M)>, name: Seq<char>) -> Option<M>
    decreases entries.len(),
{
    if entries.len() == 0 {
        None
    } else if entries[0].0 == name {
        Some(entries[0].1)
    } else {
        lookup(entries.drop_first(), name)
    }
}

/// How many entries stand at the start of `entries` with a name that comes
/// before `name`. Where the names ascend, this is the place of `name`.
pub open spec fn rank<M>(entries: Seq<(Seq<char>, M)>, name: Seq<char>) -> int
    decreases entries.len(),
{
    if entries.len() == 0 || !lex_lt(entries[0].0, name) {
        0
    } else {
        1 + rank(entries.drop_first(), name)
    }
}

/// `entries` with `name` bound to `value`: in place of what `name` was bound
/// to, or else as a new entry at the place of `name`.
pub open spec fn bind<M>(entries: Seq<(Seq<char>, M)>, name: Seq<char>, value: M) -> Seq<
    (Seq<char>, M),
> {
    let at = rank(entries, name);
    if 0 <= at < entries.len() && entries[at].0 == name {
        entries.update(at, (name, value))
    } else {
        entries.insert(at, (name, value))
    }
}

/// The names ascend strictly: each comes before the next, so none is there
/// twice.
pub open spec fn ascending<M>(entries: Seq<(Seq<char>, M)>) -> bool {
    forall|i: int, j: int|
        0 <= i < j < entries.len() ==> lex_lt(#[trigger] entries[i].0, #[trigger] entries[j].0)
}

proof fn lemma_rank_bounds<M>(entries: Seq<(Seq<char>, M)>, name: Seq<char>)
    ensures
        0 <= rank(entries, name) <= entries.len(),
        forall|i: int| 0 <= i < rank(entries, name) ==> lex_lt(#[trigger] entries[i].0, name),
        rank(entries, name) < entries.len() ==> !lex_lt(entries[rank(entries, name)].0, name),
    decreases entries.len(),
{
    if entries.len() > 0 && lex_lt(entries[0].0, name) {
        let rest = entries.drop_first();
        lemma_rank_bounds(rest, name);
        assert forall|i: int| 0 <= i < rank(entries, name) implies lex_lt(
            #[trigger] entries[i].0,
            name,
        ) by {
            if i > 0 {
                assert(entries[i] == rest[i - 1]);
            }
        }
    }
}

/// The place of a name is behind the names that come before it and before
/// the first that does not.
pub proof fn lemma_rank_at<M>(entries: Seq<(Seq<char>, M)>, name: Seq<char>, at: int)
    requires
        0 <= at <= entries.len(),
        forall|i: int| 0 <= i < at ==> lex_lt(#[trigger] entries[i].0, name),
        at < entries.len() ==> !lex_lt(entries[at].0, name),
    ensures
        rank(entries, name) == at,
    decreases entries.len(),
{
    if at > 0 {
        let rest = entries.drop_first();
        assert(lex_lt(entries[0].0, name));
        assert forall|i: int| 0 <= i < at - 1 implies lex_lt(#[trigger] rest[i].0, name) by {
            assert(rest[i] == entries[i + 1]);
        }
        lemma_rank_at(rest, name, at - 1);
    }
}

/// Entries with other names at the start do not matter to what a name is
/// bound to.
pub proof fn lemma_lookup_skip<M>(entries: Seq<(Seq<char>, M)>, name: Seq<char>, upto: int)
    requires
        0 <= upto <= entries.len(),
        forall|i: int| 0 <= i < upto ==> (#[trigger] entries[i]).0 != name,
    ensures
        lookup(entries, name) == lookup(entries.skip(upto), name),
    decreases upto,
{
    if upto == 0 {
        assert(entries.skip(0) =~= entries);
    } else {
        let rest = entries.drop_first();
        assert(entries[0].0 != name);
        assert forall|i: int| 0 <= i < upto - 1 implies (#[trigger] rest[i]).0 != name by {
            assert(rest[i] == entries[i + 1]);
        }
        lemma_lookup_skip(rest, name, upto - 1);
        assert(rest.skip(upto - 1) =~= entries.skip(upto));
    }
}

/// In ascending entries, a name is bound exactly where it stands.
pub proof fn lemma_lookup_ascending<M>(entries: Seq<(Seq<char>, M)>, name: Seq<char>)
    requires
        ascending(entries),
    ensures
        ({
            let at = rank(entries, name);
            lookup(entries, name) == if 0 <= at < entries.len() && entries[at].0 == name {
                Some(entries[at].1)
            } else {
                None::<M>
            }
        }),
{
    let at = rank(entries, name);
    lemma_rank_bounds(entries, name);
    assert forall|i: int| 0 <= i < at implies (#[trigger] entries[i]).0 != name by {
        lemma_lex_equal(entries[i].0, name);
    }
    lemma_lookup_skip(entries, name, at);
    let rest = entries.skip(at);
    if at < entries.len() && entries[at].0 == name {
        assert(rest[0] == entries[at]);
    } else {
        assert forall|i: int| 0 <= i < rest.len() implies (#[trigger] rest[i]).0 != name by {
            assert(rest[i] == entries[at + i]);
            if rest[i].0 == name {
                assert(i > 0);
                assert(lex_lt(entries[at].0, entries[at + i].0));
            }
        }
        lemma_lookup_skip(rest, name, rest.len() as int);
        assert(rest.skip(rest.len() as int) =~= Seq::<(Seq<char>, M)>::empty());
    }
}

/// Binding a name keeps ascending entries ascending, binds that name to the
/// value, and leaves every other name as it was.
pub proof fn lemma_bind<M>(entries: Seq<(Seq<char>, M)>, name: Seq<char>, value: M)
    requires
        ascending(entries),
    ensures
        ascending(bind(entries, name, value)),
        lookup(bind(entries, name, value), name) == Some(value),
        forall|other: Seq<char>|
            other != name ==> lookup(bind(entries, name, value), other) == lookup(entries, other),
{
    let at = rank(entries, name);
    let bound = bind(entries, name, value);
    lemma_rank_bounds(entries, name);
    if at < entries.len() {
        lemma_lex_flip(entries[at].0, name);
        lemma_lex_equal(entries[at].0, name);
    }
    assert(ascending(bound)) by {
        assert forall|i: int, j: int| 0 <= i < j < bound.len() implies lex_lt(
            #[trigger] bound[i].0,
            #[trigger] bound[j].0,
        ) by {
            if at < entries.len() && entries[at].0 == name {
                assert(bound[i].0 == entries[i].0);
                assert(bound[j].0 == entries[j].0);
            } else {
                if j < at {
                    assert(bound[i] == entries[i] && bound[j] == entries[j]);
                } else if j == at {
                    assert(bound[i] == entries[i]);
                } else if i == at {
                    assert(bound[j] == entries[j - 1]);
                    if j - 1 > at {
                        assert(lex_lt(entries[at].0, entries[j - 1].0));
                        lemma_lex_transitive(name, entries[at].0, entries[j - 1].0);
                    }
                } else if i < at {
                    assert(bound[i] == entries[i] && bound[j] == entries[j - 1]);
                    if j - 1 == at {
                    }
                    assert(lex_lt(entries[i].0, entries[j - 1].0));
                } else {
                    assert(bound[i] == entries[i - 1] && bound[j] == entries[j - 1]);
                }
            }
        }
    }
    assert forall|i: int| 0 <= i < at implies lex_lt(#[trigger] bound[i].0, name) by {
        assert(bound[i] == entries[i]);
    }
    lemma_lex_equal(name, name);
    lemma_rank_at(bound, name, at);
    lemma_lookup_ascending(bound, name);
    assert forall|other: Seq<char>| other != name implies lookup(bound, other) == lookup(
        entries,
        other,
    ) by {
        lemma_lookup_ascending(bound, other);
        lemma_lookup_ascending(entries, other);
        let was = rank(entries, other);
        lemma_rank_bounds(entries, other);
        lemma_lex_equal(name, other);
        lemma_lex_flip(name, other);
        if lex_lt(name, other) {
            // `other` stands behind `name`
            let now = if at < entries.len() && entries[at].0 == name {
                was
            } else {
                was + 1
            };
            assert(at <= was) by {
                if was < at {
                    assert(lex_lt(entries[was].0, name));
                    lemma_lex_transitive(entries[was].0, name, other);
                }
            }
            assert forall|i: int| 0 <= i < now implies lex_lt(#[trigger] bound[i].0, other) by {
                if i < at {
                    assert(bound[i] == entries[i]);
                } else if i == at {
                } else {
                    if at < entries.len() && entries[at].0 == name {
                        assert(bound[i] == entries[i]);
                    } else {
                        assert(bound[i] == entries[i - 1]);
                    }
                }
            }
            if now < bound.len() {
                if at < entries.len() && entries[at].0 == name {
                    assert(now != at) by {
                        if was == at {
                            assert(!lex_lt(entries[at].0, other));
                        }
                    }
                    assert(bound[now] == entries[was]);
                } else {
                    assert(bound[now] == entries[was]);
                }
            }
            lemma_rank_at(bound, other, now);
        } else {
            // `other` stands before `name`
            assert(lex_lt(other, name));
            assert(was <= at) by {
                if at < was {
                    assert(lex_lt(entries[at].0, other));
                    lemma_lex_transitive(entries[at].0, other, name);
                }
            }
            assert forall|i: int| 0 <= i < was implies lex_lt(#[trigger] bound[i].0, other) by {
                assert(bound[i] == entries[i]);
            }
            if was < bound.len() {
                if was < at {
                    assert(bound[was] == entries[was]);
                } else {
                    assert(bound[was].0 == name);
                }
            }
            lemma_rank_at(bound, other, was);
            if was == at && was < entries.len() {
                assert(entries[was].0 != other) by {
                    if entries[at].0 == other {
                        lemma_lex_flip(entries[at].0, name);
                    }
                }
            }
        }
    }
}

/// A table from names to values. Its names ascend strictly, in the order of
/// [`lex_lt`].
#[derive(Debug)]
pub struct NameTable<V: View> {
    entries: Vec<(String, V)>,
}

impl<V: View> View for NameTable<V> {
    type V = Seq<(Seq<char>, V::V)>;

    closed spec fn view(&self) -> Seq<(Seq<char>, V::V)> {
        Seq::new(self.entries.len() as nat, |i: int| (self.entries[i].0@, self.entries[i].1@))
    }
}

impl<V: View> NameTable<V> {
    #[verifier::type_invariant]
    closed spec fn well_formed(self) -> bool {
        ascending(self@)
    }

    /// An empty table.
    pub fn new() -> (table: Self)
        ensures
            table@ == Seq::<(Seq<char>, V::V)>::empty(),
    {
        let table = NameTable { entries: Vec::new() };
        assert(table@ =~= Seq::<(Seq<char>, V::V)>::empty());
        table
    }

    /// The number of entries. The names of a table always ascend.
    pub fn len(&self) -> (n: usize)
        ensures
            n == self@.len(),
            ascending(self@),
    {
        proof {
            use_type_invariant(self);
        }
        self.entries.len()
    }

    /// The name of the entry at `i`.
    pub fn name_at(&self, i: usize) -> (name: &String)
        requires
            i < self@.len(),
        ensures
            name@ == self@[i as int].0,
    {
        &self.entries[i].0
    }

    /// The value of the entry at `i`.
    pub fn value_at(&self, i: usize) -> (value: &V)
        requires
            i < self@.len(),
        ensures
            value@ == self@[i as int].1,
    {
        &self.entries[i].1
    }

    /// Where `name` stands or would stand, and whether it stands there.
    fn find(&self, name: &str) -> (found: (usize, bool))
        ensures
            found.0 == rank(self@, name@),
            found.0 <= self@.len(),
            found.1 == (found.0 < self@.len() && self@[found.0 as int].0 == name@),
    {
        proof {
            use_type_invariant(self);
        }
        let mut i: usize = 0;
        while i < self.entries.len()
            invariant
                i <= self.entries.len(),
                self@.len() == self.entries.len(),
                forall|j: int| 0 <= j < self@.len() ==> #[trigger] self@[j].0 == self.entries[j].0@,
                forall|j: int| 0 <= j < i ==> lex_lt(#[trigger] self@[j].0, name@),
            decreases self.entries.len() - i,
        {
            let order = compare(self.entries[i].0.as_str(), name);
            proof {
                lemma_lex_equal(self@[i as int].0, name@);
            }
            match order {
                Order::Less => {},
                Order::Equal => {
                    proof {
                        lemma_rank_at(self@, name@, i as int);
                    }
                    return (i, true);
                },
                Order::Greater => {
                    proof {
                        lemma_rank_at(self@, name@, i as int);
                    }
                    return (i, false);
                },
            }
            i += 1;
        }
        proof {
            lemma_rank_at(self@, name@, i as int);
        }
        (i, false)
    }

    /// What `name` is bound to, if anything.
    pub fn get(&self, name: &str) -> (value: Option<&V>)
        ensures
            match value {
                Some(v) => lookup(self@, name@) == Some(v@),
                None => lookup(self@, name@) is None,
            },
    {
        proof {
            use_type_invariant(self);
            lemma_lookup_ascending(self@, name@);
        }
        let (at, found) = self.find(name);
        if found {
            Some(&self.entries[at].1)
        } else {
            None
        }
    }

    /// Whether `name` is bound.
    pub fn contains(&self, name: &str) -> (bound: bool)
        ensures
            bound == lookup(self@, name@).is_some(),
    {
        self.get(name).is_some()
    }

    /// Binds `name` to `value`, in place of what it was bound to if it was.
    pub fn set(&mut self, name: String, value: V)
        ensures
            final(self)@ == bind(old(self)@, name@, value@),
    {
        proof {
            use_type_invariant(&*self);
            lemma_bind(self@, name@, value@);
        }
        let ghost before = self@;
        let (at, found) = self.find(name.as_str());
        let mut entries: Vec<(String, V)> = Vec::new();
        std::mem::swap(&mut self.entries, &mut entries);
        let ghost model = Seq::new(entries.len() as nat, |i: int| (entries[i].0@, entries[i].1@));
        assert(model =~= before);
        if found {
            entries.set(at, (name, value));
        } else {
            entries.insert(at, (name, value));
        }
        let ghost bound = Seq::new(entries.len() as nat, |i: int| (entries[i].0@, entries[i].1@));
        assert(bound =~= bind(before, name@, value@));
        std::mem::swap(&mut self.entries, &mut entries);
        assert(self@ =~= bound);
    }
}

} // verus!
