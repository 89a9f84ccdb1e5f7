//! The histograms of a plan, held by the names of the structures that they
//! describe.
//!
//! No structure has two histograms. The collection keeps its entries in the
//! order of their names, so that two collections with the same histograms
//! under the same names are equal, in whatever order they were filled.

use vstd::prelude::*;
use vstd::std_specs::iter::IteratorSpec;
use vstd::string::group_string_axioms;
use crate::dvh::{Dvh, DvhView};
use crate::error::Error;
use crate::traits::DvhCheck;

verus! {

/// How one name stands to another in the order of the collection.
#[derive(Clone, Copy, Debug, PartialEq, Eq, Structural)]
pub enum Place {
    /// The first name comes before the second.
    Before,
    /// The two names are the same.
    Same,
    /// The first name comes after the second.
    After,
}

/// The order of names: `a` comes before `b` if, where they first differ, `a`
/// has the character of the lower code point, or if `a` ends there and `b`
/// goes on.
pub open spec fn precedes(a: Seq<char>, b: Seq<char>) -> bool
    decreases a.len(),
{
    if b.len() == 0 {
        false
    } else if a.len() == 0 {
        true
    } else if a[0] == b[0] {
        precedes(a.drop_first(), b.drop_first())
    } else {
        a[0] < b[0]
    }
}

/// No name comes before itself.
pub proof fn lemma_precedes_irreflexive(a: Seq<char>)
    ensures
        !precedes(a, a),
    decreases a.len(),
{
    if a.len() > 0 {
        lemma_precedes_irreflexive(a.drop_first());
    }
}

/// What comes before a name comes before all that the name comes before.
pub proof fn lemma_precedes_transitive(a: Seq<char>, b: Seq<char>, c: Seq<char>)
    requires
        precedes(a, b),
        precedes(b, c),
    ensures
        precedes(a, c),
    decreases a.len(),
{
    if a.len() > 0 && a[0] == b[0] && b[0] == c[0] {
        lemma_precedes_transitive(a.drop_first(), b.drop_first(), c.drop_first());
    }
}

/// Of two names at most one comes before the other.
pub proof fn lemma_precedes_asymmetric(a: Seq<char>, b: Seq<char>)
    requires
        precedes(a, b),
    ensures
        !precedes(b, a),
        a != b,
{
    lemma_precedes_irreflexive(a);
    if precedes(b, a) {
        lemma_precedes_transitive(a, b, a);
    }
}

/// Says how `a` stands to `b` in the order of names.
pub fn place(a: &str, b: &str) -> (r: Place)
    ensures
        match r {
            Place::Before => precedes(a@, b@),
            Place::Same => a@ == b@,
            Place::After => precedes(b@, a@),
        },
{
    broadcast use group_string_axioms;

    let mut left = a.chars();
    let mut right = b.chars();
    let ghost mut i: int = 0;
    loop
        invariant
            0 <= i <= a@.len(),
            i <= b@.len(),
            left.obeys_prophetic_iter_laws(),
            right.obeys_prophetic_iter_laws(),
            left.remaining() == a@.skip(i),
            right.remaining() == b@.skip(i),
            a@.take(i) == b@.take(i),
            precedes(a@, b@) == precedes(a@.skip(i), b@.skip(i)),
            precedes(b@, a@) == precedes(b@.skip(i), a@.skip(i)),
        decreases a@.len() - i,
    {
        let x = left.next();
        let y = right.next();
        match (x, y) {
            (None, None) => {
                proof {
                    assert(a@.take(i) =~= a@);
                }
                return Place::Same;
            },
            (None, Some(_)) => {
                return Place::Before;
            },
            (Some(_), None) => {
                return Place::After;
            },
            (Some(c), Some(d)) => {
                if c < d {
                    return Place::Before;
                }
                if d < c {
                    return Place::After;
                }
                proof {
                    assert(a@.skip(i).drop_first() =~= a@.skip(i + 1));
                    assert(b@.skip(i).drop_first() =~= b@.skip(i + 1));
                    i = i + 1;
                }
            },
        }
    }
}

/// Of two names that differ, one comes before the other.
pub proof fn lemma_precedes_total(a: Seq<char>, b: Seq<char>)
    ensures
        a == b || precedes(a, b) || precedes(b, a),
    decreases a.len(),
{
    if a.len() > 0 && b.len() > 0 && a[0] == b[0] {
        lemma_precedes_total(a.drop_first(), b.drop_first());
        if a.drop_first() == b.drop_first() {
            assert(a =~= seq![a[0]] + a.drop_first());
        }
    }
}

/// The names come one before the next: the entries are in the order of their
/// names, and no name stands twice.
pub open spec fn ordered_by_name(entries: Seq<(Seq<char>, DvhView)>) -> bool {
    forall|i: int, j: int|
        0 <= i < j < entries.len() ==> precedes(#[trigger] entries[i].0, #[trigger] entries[j].0)
}

/// How many entries at the start have a name that comes before `name`: the
/// position at which an entry of that name stands or would stand.
pub open spec fn rank(entries: Seq<(Seq<char>, DvhView)>, name: Seq<char>) -> int
    decreases entries.len(),
{
    if entries.len() == 0 || !precedes(entries[0].0, name) {
        0
    } else {
        1 + rank(entries.drop_first(), name)
    }
}

/// Whether the entries hold a histogram under `name`.
pub open spec fn holds(entries: Seq<(Seq<char>, DvhView)>, name: Seq<char>) -> bool {
    rank(entries, name) < entries.len() && entries[rank(entries, name)].0 == name
}

/// The histogram that the entries hold under `name`, if they hold one.
pub open spec fn held(entries: Seq<(Seq<char>, DvhView)>, name: Seq<char>) -> Option<DvhView> {
    if holds(entries, name) {
        Some(entries[rank(entries, name)].1)
    } else {
        None
    }
}

/// The entries after `dvh` was put under `name`: in the place of the
/// histogram that stood under that name, or else where the order of names
/// has it.
pub open spec fn put(entries: Seq<(Seq<char>, DvhView)>, name: Seq<char>, dvh: DvhView) -> Seq<
    (Seq<char>, DvhView),
> {
    if holds(entries, name) {
        entries.update(rank(entries, name), (name, dvh))
    } else {
        entries.insert(rank(entries, name), (name, dvh))
    }
}

/// [`rank`] is a position of the entries or their number; every name before
/// it comes before `name`, and the name at it does not.
pub proof fn lemma_rank(entries: Seq<(Seq<char>, DvhView)>, name: Seq<char>)
    ensures
        0 <= rank(entries, name) <= entries.len(),
        forall|k: int| 0 <= k < rank(entries, name) ==> precedes(#[trigger] entries[k].0, name),
        rank(entries, name) < entries.len() ==> !precedes(entries[rank(entries, name)].0, name),
    decreases entries.len(),
{
    if entries.len() != 0 && precedes(entries[0].0, name) {
        let rest = entries.drop_first();
        lemma_rank(rest, name);
        assert forall|k: int| 0 <= k < rank(entries, name) implies precedes(
            #[trigger] entries[k].0,
            name,
        ) by {
            if k > 0 {
                assert(entries[k] == rest[k - 1]);
            }
        }
    }
}

/// A position with only earlier names before it, which holds a name that is
/// not earlier than `name` or is the end of the entries, is [`rank`].
pub proof fn lemma_rank_is(entries: Seq<(Seq<char>, DvhView)>, name: Seq<char>, at: int)
    requires
        0 <= at <= entries.len(),
        forall|k: int| 0 <= k < at ==> precedes(#[trigger] entries[k].0, name),
        at < entries.len() ==> !precedes(entries[at].0, name),
    ensures
        rank(entries, name) == at,
{
    lemma_rank(entries, name);
}

/// In entries that are ordered by name, a histogram is found under its name
/// and no other, and no name stands twice.
pub proof fn lemma_found_by_name(entries: Seq<(Seq<char>, DvhView)>, at: int)
    requires
        ordered_by_name(entries),
        0 <= at < entries.len(),
    ensures
        rank(entries, entries[at].0) == at,
        held(entries, entries[at].0) == Some(entries[at].1),
        forall|k: int| 0 <= k < entries.len() && k != at ==> (#[trigger] entries[k]).0 != entries[at].0,
{
    let name = entries[at].0;
    lemma_precedes_irreflexive(name);
    lemma_rank_is(entries, name, at);
    assert forall|k: int| 0 <= k < entries.len() && k != at implies (#[trigger] entries[k]).0
        != name by {
        if k < at {
            lemma_precedes_asymmetric(entries[k].0, name);
        } else {
            lemma_precedes_asymmetric(name, entries[k].0);
        }
    }
}

/// Putting a histogram under a name keeps the entries ordered by name, and
/// the histogram is then held under that name.
pub proof fn lemma_put(entries: Seq<(Seq<char>, DvhView)>, name: Seq<char>, dvh: DvhView)
    requires
        ordered_by_name(entries),
    ensures
        ordered_by_name(put(entries, name, dvh)),
        held(put(entries, name, dvh), name) == Some(dvh),
        put(entries, name, dvh).len() == if holds(entries, name) {
            entries.len()
        } else {
            entries.len() + 1
        },
{
    lemma_rank(entries, name);
    let at = rank(entries, name);
    let after = put(entries, name, dvh);
    if !holds(entries, name) {
        assert forall|i: int, j: int| 0 <= i < j < after.len() implies precedes(
            #[trigger] after[i].0,
            #[trigger] after[j].0,
        ) by {
            if at < entries.len() {
                lemma_precedes_total(entries[at].0, name);
            }
            if i < at < j {
                lemma_precedes_transitive(entries[i].0, name, entries[at].0);
            }
            if i == at < j - 1 {
                lemma_precedes_transitive(name, entries[at].0, entries[j - 1].0);
            }
        }
    }
    lemma_precedes_irreflexive(name);
    lemma_rank_is(after, name, at);
}

/// Putting a histogram under a name changes nothing under any other name.
pub proof fn lemma_put_elsewhere(
    entries: Seq<(Seq<char>, DvhView)>,
    name: Seq<char>,
    dvh: DvhView,
    other: Seq<char>,
)
    requires
        ordered_by_name(entries),
        other != name,
    ensures
        held(put(entries, name, dvh), other) == held(entries, other),
{
    lemma_rank(entries, name);
    lemma_rank(entries, other);
    lemma_precedes_total(name, other);
    let at = rank(entries, name);
    let there = rank(entries, other);
    let after = put(entries, name, dvh);
    if holds(entries, name) {
        assert forall|k: int| 0 <= k < after.len() implies (#[trigger] after[k]).0 == entries[k].0 by {}
        lemma_rank_is(after, other, there);
    } else if precedes(name, other) {
        assert(at <= there) by {
            if there < at {
                lemma_precedes_transitive(entries[there].0, name, other);
            }
        }
        lemma_rank_is(after, other, there + 1);
    } else {
        lemma_precedes_asymmetric(other, name);
        assert(there <= at) by {
            if at < there {
                lemma_precedes_transitive(entries[at].0, other, name);
            }
        }
        lemma_rank_is(after, other, there);
    }
}

/// The names and histograms of a sequence of entries, as specifications see
/// them.
pub open spec fn views(entries: Seq<(String, Dvh)>) -> Seq<(Seq<char>, DvhView)> {
    Seq::new(entries.len(), |i: int| (entries[i].0@, entries[i].1@))
}

/// The histograms of a plan, each under the name of its structure.
///
/// Two collections are equal if they hold equal histograms under the same
/// names.
#[derive(Debug, PartialEq)]
pub struct DvhMap {
    entries: Vec<(String, Dvh)>,
}

impl View for DvhMap {
    type V = Seq<(Seq<char>, DvhView)>;

    /// The entries, name and histogram, in the order of their names.
    closed spec fn view(&self) -> Seq<(Seq<char>, DvhView)> {
        views(self.entries@)
    }
}

/// Where an entry of the name `name` stands or would stand, and whether one
/// stands there.
fn find(entries: &Vec<(String, Dvh)>, name: &str) -> (r: (usize, bool))
    ensures
        r.0 == rank(views(entries@), name@),
        r.1 == holds(views(entries@), name@),
{
    let ghost seen = views(entries@);
    let n = entries.len();
    let mut at: usize = 0;
    while at < n
        invariant
            at <= n == entries@.len(),
            seen == views(entries@),
            forall|k: int| 0 <= k < at ==> precedes(#[trigger] seen[k].0, name@),
        decreases n - at,
    {
        match place(entries[at].0.as_str(), name) {
            Place::Before => {
                at = at + 1;
            },
            Place::Same => {
                proof {
                    lemma_precedes_irreflexive(name@);
                    lemma_rank_is(seen, name@, at as int);
                }
                return (at, true);
            },
            Place::After => {
                proof {
                    lemma_precedes_asymmetric(name@, seen[at as int].0);
                    lemma_rank_is(seen, name@, at as int);
                }
                return (at, false);
            },
        }
    }
    proof {
        lemma_rank_is(seen, name@, at as int);
    }
    (at, false)
}

impl DvhMap {
    /// What holds of every collection at every time: its entries are in the
    /// order of their names.
    #[verifier::type_invariant]
    pub open spec fn well_formed(&self) -> bool {
        ordered_by_name(self@)
    }

    /// A collection without histograms.
    pub fn new() -> (r: DvhMap)
        ensures
            r@ == Seq::<(Seq<char>, DvhView)>::empty(),
    {
        let r = DvhMap { entries: Vec::new() };
        r
    }

    /// The number of histograms.
    pub fn len(&self) -> (r: usize)
        ensures
            r == self@.len(),
    {
        self.entries.len()
    }

    /// Whether the collection holds no histogram.
    pub fn is_empty(&self) -> (r: bool)
        ensures
            r == (self@.len() == 0),
    {
        self.entries.len() == 0
    }

    /// The entries, name and histogram, in the order of their names. No name
    /// stands twice, and each histogram is the one held under its name.
    pub fn entries(&self) -> (r: &Vec<(String, Dvh)>)
        ensures
            views(r@) == self@,
            ordered_by_name(self@),
            forall|i: int, j: int|
                0 <= i < self@.len() && 0 <= j < self@.len() && i != j ==> (#[trigger] self@[i]).0
                    != (#[trigger] self@[j]).0,
            forall|i: int| 0 <= i < self@.len() ==> held(self@, (#[trigger] self@[i]).0) == Some(self@[i].1),
    {
        proof {
            use_type_invariant(self);
            assert forall|i: int| 0 <= i < self@.len() implies held(self@, (#[trigger] self@[i]).0)
                == Some(self@[i].1) && (forall|j: int|
                0 <= j < self@.len() && i != j ==> (#[trigger] self@[j]).0 != self@[i].0) by {
                lemma_found_by_name(self@, i);
            }
        }
        &self.entries
    }

    /// Whether the collection holds a histogram under `name`.
    pub fn contains_key(&self, name: &str) -> (r: bool)
        ensures
            r == holds(self@, name@),
    {
        find(&self.entries, name).1
    }

    /// The histogram that the collection holds under `name`, if it holds one.
    pub fn get(&self, name: &str) -> (r: Option<&Dvh>)
        ensures
            match r {
                Some(dvh) => held(self@, name@) == Some(dvh@),
                None => held(self@, name@) is None,
            },
    {
        let (at, found) = find(&self.entries, name);
        if found {
            Some(&self.entries[at].1)
        } else {
            None
        }
    }

    /// Puts `dvh` under `name`. If the collection held a histogram under that
    /// name, the new one takes its place and the old one is returned. What
    /// the collection holds under other names stays as it is.
    pub fn insert(&mut self, name: String, dvh: Dvh) -> (r: Option<Dvh>)
        ensures
            final(self)@ == put(old(self)@, name@, dvh@),
            match r {
                Some(was) => held(old(self)@, name@) == Some(was@),
                None => held(old(self)@, name@) is None,
            },
            held(final(self)@, name@) == Some(dvh@),
            forall|other: Seq<char>|
                other != name@ ==> #[trigger] held(final(self)@, other) == held(old(self)@, other),
            ordered_by_name(final(self)@),
    {
        proof {
            use_type_invariant(&*self);
            lemma_put(self@, name@, dvh@);
            assert forall|other: Seq<char>| other != name@ implies #[trigger] held(
                put(self@, name@, dvh@),
                other,
            ) == held(self@, other) by {
                lemma_put_elsewhere(self@, name@, dvh@, other);
            }
        }
        let mut entries: Vec<(String, Dvh)> = Vec::new();
        std::mem::swap(&mut entries, &mut self.entries);
        let ghost before = views(entries@);
        let ghost entry = (name@, dvh@);
        let (at, found) = find(&entries, name.as_str());
        let r = if found {
            entries.push((name, dvh));
            let was = entries.swap_remove(at);
            assert(views(entries@) =~= before.update(at as int, entry));
            Some(was.1)
        } else {
            proof {
                lemma_rank(before, entry.0);
            }
            entries.insert(at, (name, dvh));
            assert(views(entries@) =~= before.insert(at as int, entry));
            None
        };
        self.entries = entries;
        r
    }
}

impl Default for DvhMap {
    /// A collection without histograms.
    fn default() -> (r: Self)
        ensures
            r@ == Seq::<(Seq<char>, DvhView)>::empty(),
    {
        DvhMap::new()
    }
}

impl Clone for DvhMap {
    fn clone(&self) -> (r: Self)
        ensures
            r@ == self@,
    {
        proof {
            use_type_invariant(self);
        }
        let n = self.entries.len();
        let mut entries: Vec<(String, Dvh)> = Vec::new();
        let mut i: usize = 0;
        while i < n
            invariant
                i <= n == self.entries@.len(),
                views(entries@) == views(self.entries@).take(i as int),
            decreases n - i,
        {
            let name = self.entries[i].0.clone();
            let dvh = self.entries[i].1.clone();
            let ghost copied = views(entries@);
            entries.push((name, dvh));
            assert(views(entries@) =~= copied.push((name@, dvh@)));
            i = i + 1;
        }
        DvhMap { entries }
    }
}

impl DvhCheck for DvhMap {
    /// Every histogram of the collection is sorted.
    open spec fn ready(&self) -> bool {
        forall|i: int| 0 <= i < self@.len() ==> (#[trigger] self@[i]).1.sorted
    }

    /// Checks every histogram of the collection, in the order of the names,
    /// as [`Dvh::dvh_check`] does. None of them can fail, so the check
    /// succeeds, and leaves every histogram sorted under its name.
    fn dvh_check(&mut self) -> (r: Result<(), Error>)
        ensures
            r is Ok,
            final(self)@.len() == old(self)@.len(),
            forall|i: int|
                0 <= i < old(self)@.len() ==> {
                    &&& (#[trigger] final(self)@[i]).0 == old(self)@[i].0
                    &&& old(self)@[i].1.sorts_to(final(self)@[i].1)
                },
    {
        proof {
            use_type_invariant(&*self);
        }
        let mut entries: Vec<(String, Dvh)> = Vec::new();
        std::mem::swap(&mut entries, &mut self.entries);
        let ghost before = views(entries@);
        let n = entries.len();
        let mut i: usize = 0;
        while i < n
            invariant
                i <= n == entries@.len() == before.len(),
                ordered_by_name(before),
                forall|k: int| 0 <= k < n ==> (#[trigger] entries@[k]).0@ == before[k].0,
                forall|k: int| 0 <= k < i ==> before[k].1.sorts_to((#[trigger] entries@[k]).1@),
                forall|k: int| i <= k < n ==> (#[trigger] entries@[k]).1@ == before[k].1,
            decreases n - i,
        {
            if let Err(error) = entries[i].1.dvh_check() {
                return Err(error);
            }
            i = i + 1;
        }
        self.entries = entries;
        Ok(())
    }
}

} // verus!
