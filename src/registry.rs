//! The registry of pipes by name: looked up or created on every access, and
//! swept of the pipes that no handler holds any longer.

use crate::pipe::{handle_count, is_held, Pipe};
use crate::string_views;
use std::sync::Arc;
use vstd::prelude::*;

verus! {

/// A named pipe as the registry stores it.
#[verifier::reject_recursive_types(T)]
pub struct PipeEntry<T> {
    pub name: String,
    pub pipe: Pipe<T>,
}

/// The pipes by name, behind the server's lock: a list of entries with
/// distinct names, seen as the map from each name to its pipe. A sweep keeps
/// the order of the entries that stay; a new name goes to the end.
#[verifier::reject_recursive_types(T)]
pub struct PipeRegistry<T> {
    entries: Vec<PipeEntry<T>>,
}

/// The map from names to pipes that a list of entries describes; a later
/// entry wins over an earlier one of the same name.
pub open spec fn entries_map<T>(s: Seq<PipeEntry<T>>) -> Map<Seq<char>, Pipe<T>>
    decreases s.len(),
{
    if s.len() == 0 {
        Map::empty()
    } else {
        entries_map(s.drop_last()).insert(s.last().name@, s.last().pipe)
    }
}

/// No two entries share a name.
pub open spec fn names_unique<T>(s: Seq<PipeEntry<T>>) -> bool {
    forall|i: int, j: int| 0 <= i < j < s.len() ==> s[i].name@ != s[j].name@
}

/// The entries whose mark is set, in their order.
pub open spec fn kept<T>(s: Seq<PipeEntry<T>>, marks: Seq<bool>) -> Seq<PipeEntry<T>>
    decreases s.len(),
{
    if s.len() == 0 || marks.len() == 0 {
        Seq::empty()
    } else if marks.last() {
        kept(s.drop_last(), marks.drop_last()).push(s.last())
    } else {
        kept(s.drop_last(), marks.drop_last())
    }
}

/// The names of a list of entries, in order.
pub open spec fn names_of<T>(s: Seq<PipeEntry<T>>) -> Seq<Seq<char>> {
    s.map_values(|e: PipeEntry<T>| e.name@)
}

/// The names that some handler still holds, given one mark per name.
pub open spec fn held_names(names: Seq<Seq<char>>, held: Seq<bool>) -> Set<Seq<char>> {
    Set::new(|n: Seq<char>| exists|i: int| 0 <= i < names.len() && held[i] && names[i] == n)
}

/// The registry after a sweep that keeps the names in `held`, followed by a
/// lookup of `name` that creates `fresh` where the name was absent.
pub open spec fn after_acquire<T>(
    view: Map<Seq<char>, Pipe<T>>,
    held: Set<Seq<char>>,
    name: Seq<char>,
    fresh: Pipe<T>,
) -> Map<Seq<char>, Pipe<T>> {
    let swept = view.restrict(held);
    if swept.contains_key(name) {
        swept
    } else {
        swept.insert(name, fresh)
    }
}

proof fn lemma_entries_map<T>(s: Seq<PipeEntry<T>>)
    requires
        names_unique(s),
    ensures
        forall|i: int|
            0 <= i < s.len() ==> #[trigger] entries_map(s).contains_key(s[i].name@)
                && entries_map(s)[s[i].name@] == s[i].pipe,
        forall|n: Seq<char>|
            #[trigger] entries_map(s).contains_key(n) ==> exists|i: int|
                0 <= i < s.len() && s[i].name@ == n,
    decreases s.len(),
{
    if s.len() > 0 {
        let t = s.drop_last();
        lemma_entries_map(t);
        assert forall|n: Seq<char>| #[trigger] entries_map(s).contains_key(n) implies exists|i: int|
            0 <= i < s.len() && s[i].name@ == n by {
            if n != s.last().name@ {
                assert(entries_map(t).contains_key(n));
                let k = choose|k: int| 0 <= k < t.len() && t[k].name@ == n;
                assert(s[k] == t[k]);
            } else {
                assert(s[s.len() - 1].name@ == n);
            }
        }
        assert forall|i: int| 0 <= i < s.len() implies #[trigger] entries_map(s).contains_key(
            s[i].name@,
        ) && entries_map(s)[s[i].name@] == s[i].pipe by {
            if i < s.len() - 1 {
                assert(s[i] == t[i]);
                assert(s[i].name@ != s[s.len() - 1].name@);
                assert(entries_map(t).contains_key(t[i].name@));
            }
        }
    }
}

proof fn lemma_kept<T>(s: Seq<PipeEntry<T>>, marks: Seq<bool>)
    requires
        names_unique(s),
        marks.len() == s.len(),
    ensures
        names_unique(kept(s, marks)),
        entries_map(kept(s, marks)) == entries_map(s).restrict(held_names(names_of(s), marks)),
        forall|j: int|
            0 <= j < kept(s, marks).len() ==> exists|i: int|
                0 <= i < s.len() && #[trigger] kept(s, marks)[j] == s[i],
    decreases s.len(),
{
    if s.len() > 0 {
        let t = s.drop_last();
        let m = marks.drop_last();
        lemma_kept(t, m);
        lemma_entries_map(t);
        let k = kept(t, m);
        let last = s.last();
        assert forall|j: int| 0 <= j < k.len() implies #[trigger] k[j].name@ != last.name@ by {
            let i = choose|i: int| 0 <= i < t.len() && k[j] == t[i];
            assert(s[i] == t[i]);
        }
        assert forall|j: int| 0 <= j < kept(s, marks).len() implies exists|i: int|
            0 <= i < s.len() && #[trigger] kept(s, marks)[j] == s[i] by {
            if j < k.len() {
                let i = choose|i: int| 0 <= i < t.len() && k[j] == t[i];
                assert(s[i] == t[i]);
            } else {
                assert(kept(s, marks)[j] == s[s.len() - 1]);
            }
        }
        if marks.last() {
            assert(kept(s, marks) == k.push(last));
            assert(k.push(last).drop_last() == k);
        }
        assert(!entries_map(t).contains_key(last.name@)) by {
            if entries_map(t).contains_key(last.name@) {
                let i = choose|i: int| 0 <= i < t.len() && t[i].name@ == last.name@;
                assert(s[i] == t[i]);
            }
        }
        assert forall|n: Seq<char>| #[trigger] held_names(names_of(s), marks).contains(n) && n != last.name@
            implies held_names(names_of(t), m).contains(n) by {
            let i = choose|i: int| 0 <= i < s.len() && marks[i] && names_of(s)[i] == n;
            assert(t[i] == s[i] && m[i] == marks[i]);
            assert(names_of(t)[i] == n);
        }
        assert forall|n: Seq<char>| #[trigger] held_names(names_of(t), m).contains(n)
            implies held_names(names_of(s), marks).contains(n) by {
            let i = choose|i: int| 0 <= i < t.len() && m[i] && names_of(t)[i] == n;
            assert(t[i] == s[i] && m[i] == marks[i]);
            assert(names_of(s)[i] == n);
        }
        assert(held_names(names_of(s), marks).contains(last.name@) == marks.last()) by {
            if held_names(names_of(s), marks).contains(last.name@) {
                let i = choose|i: int| 0 <= i < s.len() && marks[i] && names_of(s)[i] == last.name@;
                if i < s.len() - 1 {
                    assert(s[i] == t[i]);
                }
            } else {
                assert(marks[s.len() - 1] && names_of(s)[s.len() - 1] == last.name@ ==> held_names(
                    names_of(s),
                    marks,
                ).contains(last.name@));
            }
        }
        assert(entries_map(kept(s, marks)) =~= entries_map(s).restrict(held_names(names_of(s), marks)));
    }
}

/// One mark per pipe from its `(sender, receiver)` handle counts: whether a
/// handler still holds either endpoint.
pub fn holder_marks(counts: &Vec<(usize, usize)>) -> (r: Vec<bool>)
    ensures
        r@.len() == counts@.len(),
        forall|i: int| 0 <= i < r@.len() ==> r@[i] == (counts@[i].0 > 1 || counts@[i].1 > 1),
{
    let mut r: Vec<bool> = Vec::new();
    let mut i: usize = 0;
    while i < counts.len()
        invariant
            i <= counts@.len(),
            r@.len() == i,
            forall|k: int| 0 <= k < i ==> r@[k] == (counts@[k].0 > 1 || counts@[k].1 > 1),
        decreases counts@.len() - i,
    {
        let (s, c) = counts[i];
        r.push(is_held(s, c));
        i = i + 1;
    }
    r
}

impl<T> PipeRegistry<T> {
    /// The pipes by name.
    pub closed spec fn view(&self) -> Map<Seq<char>, Pipe<T>> {
        entries_map(self.entries@)
    }

    /// The registered names, in the order in which a sweep visits them.
    pub closed spec fn entry_names(&self) -> Seq<Seq<char>> {
        names_of(self.entries@)
    }

    /// Each registered name stands once.
    pub closed spec fn wf(&self) -> bool {
        names_unique(self.entries@)
    }

    proof fn lemma_view(&self)
        requires
            self.wf(),
        ensures
            forall|n: Seq<char>|
                #[trigger] self@.contains_key(n) <==> self.entry_names().contains(n),
    {
        lemma_entries_map(self.entries@);
        assert forall|n: Seq<char>| #[trigger] self.entry_names().contains(n) implies self@.contains_key(
            n,
        ) by {
            let i = choose|i: int| 0 <= i < self.entry_names().len() && self.entry_names()[i] == n;
            assert(self.entries@[i].name@ == n);
        }
        assert forall|n: Seq<char>| #[trigger] self@.contains_key(n) implies self.entry_names().contains(
            n,
        ) by {
            let i = choose|i: int| 0 <= i < self.entries@.len() && self.entries@[i].name@ == n;
            assert(self.entry_names()[i] == n);
        }
    }

    /// The registered names are distinct.
    pub proof fn lemma_names_distinct(&self)
        requires
            self.wf(),
        ensures
            forall|i: int, j: int|
                0 <= i < j < self.entry_names().len() ==> self.entry_names()[i]
                    != self.entry_names()[j],
    {
        assert forall|i: int, j: int| 0 <= i < j < self.entry_names().len() implies self.entry_names()[i]
            != self.entry_names()[j] by {
            assert(self.entry_names()[i] == self.entries@[i].name@);
            assert(self.entry_names()[j] == self.entries@[j].name@);
        }
    }

    /// An empty registry.
    pub fn new() -> (r: Self)
        ensures
            r.wf(),
            r@ == Map::<Seq<char>, Pipe<T>>::empty(),
            r.entry_names().len() == 0,
    {
        PipeRegistry { entries: Vec::new() }
    }

    /// The registered names, in the order of `entry_names`.
    pub fn names(&self) -> (r: Vec<String>)
        ensures
            string_views(r@) == self.entry_names(),
    {
        let mut r: Vec<String> = Vec::new();
        let mut i: usize = 0;
        while i < self.entries.len()
            invariant
                i <= self.entries@.len(),
                string_views(r@) == self.entry_names().take(i as int),
            decreases self.entries@.len() - i,
        {
            let ghost old_r = r@;
            r.push(self.entries[i].name.clone());
            assert(self.entry_names()[i as int] == self.entries@[i as int].name@);
            assert(string_views(r@) =~= string_views(old_r).push(self.entries@[i as int].name@));
            assert(self.entry_names().take(i as int + 1) =~= self.entry_names().take(i as int).push(
                self.entries@[i as int].name@,
            ));
            i = i + 1;
        }
        assert(self.entry_names().take(i as int) =~= self.entry_names());
        r
    }

    /// Where `name` stands among the entries, if it is registered.
    fn position(&self, name: &String) -> (r: Option<usize>)
        requires
            self.wf(),
        ensures
            match r {
                Some(i) => i < self.entries@.len() && self.entries@[i as int].name@ == name@,
                None => !self@.contains_key(name@),
            },
    {
        proof {
            self.lemma_view();
        }
        let mut i: usize = 0;
        while i < self.entries.len()
            invariant
                i <= self.entries@.len(),
                forall|k: int| 0 <= k < i ==> self.entries@[k].name@ != name@,
            decreases self.entries@.len() - i,
        {
            if self.entries[i].name == *name {
                return Some(i);
            }
            i = i + 1;
        }
        proof {
            if self.entry_names().contains(name@) {
                let k = choose|k: int| 0 <= k < self.entry_names().len() && self.entry_names()[k] == name@;
                assert(self.entries@[k].name@ == name@);
            }
        }
        None
    }

    /// Whether `name` is registered.
    pub fn contains(&self, name: &String) -> (r: bool)
        requires
            self.wf(),
        ensures
            r == self@.contains_key(name@),
    {
        proof {
            lemma_entries_map(self.entries@);
        }
        self.position(name).is_some()
    }

    /// Drops every pipe whose mark in `held` is unset; `held` has one mark per
    /// entry, in the order of `entry_names`.
    pub fn retain_held(&mut self, held: &Vec<bool>)
        requires
            old(self).wf(),
            held@.len() == old(self).entry_names().len(),
        ensures
            final(self).wf(),
            final(self)@ == old(self)@.restrict(held_names(old(self).entry_names(), held@)),
    {
        let ghost orig = self.entries@;
        let ghost n = orig.len();
        let mut i: usize = 0;
        let mut j: usize = 0;
        while j < held.len()
            invariant
                held@.len() == n,
                orig.len() == n,
                j <= n,
                i <= j,
                kept(orig.take(j as int), held@.take(j as int)).len() == i,
                self.entries@ == kept(orig.take(j as int), held@.take(j as int)) + orig.subrange(
                    j as int,
                    n as int,
                ),
            decreases n - j,
        {
            let ghost before = kept(orig.take(j as int), held@.take(j as int));
            assert(orig.take(j as int + 1).drop_last() =~= orig.take(j as int));
            assert(held@.take(j as int + 1).drop_last() =~= held@.take(j as int));
            if held[j] {
                assert(kept(orig.take(j as int + 1), held@.take(j as int + 1)) == before.push(orig[j as int]));
                assert(self.entries@ =~= before.push(orig[j as int]) + orig.subrange(j as int + 1, n as int));
                i = i + 1;
            } else {
                assert(kept(orig.take(j as int + 1), held@.take(j as int + 1)) == before);
                self.entries.remove(i);
                assert(self.entries@ =~= before + orig.subrange(j as int + 1, n as int));
            }
            j = j + 1;
        }
        assert(orig.take(n as int) =~= orig);
        assert(held@.take(n as int) =~= held@);
        assert(self.entries@ =~= kept(orig, held@));
        proof {
            lemma_kept(orig, held@);
        }
    }

    /// How many handles to each endpoint exist, one pair per entry in the
    /// order of `entry_names`, as found when that entry is looked at.
    fn handle_counts(&self) -> (r: Vec<(usize, usize)>)
        ensures
            r@.len() == self.entry_names().len(),
    {
        let mut r: Vec<(usize, usize)> = Vec::new();
        let mut i: usize = 0;
        while i < self.entries.len()
            invariant
                i <= self.entries@.len(),
                r@.len() == i,
            decreases self.entries@.len() - i,
        {
            let pipe = &self.entries[i].pipe;
            r.push((handle_count(&pipe.sender), handle_count(&pipe.receiver)));
            i = i + 1;
        }
        r
    }

    /// Sweeps the registry of every pipe that no handler holds: what stays is
    /// kept as it was.
    pub fn pipecleaner(&mut self)
        requires
            old(self).wf(),
        ensures
            final(self).wf(),
            final(self)@.submap_of(old(self)@),
    {
        let held = holder_marks(&self.handle_counts());
        self.retain_held(&held);
    }

    /// Sweeps by `held` (see `retain_held`), then hands out the pipe of `name`,
    /// creating it where the sweep left none.
    pub fn acquire_with(&mut self, name: String, held: &Vec<bool>) -> (p: Pipe<T>)
        requires
            old(self).wf(),
            held@.len() == old(self).entry_names().len(),
        ensures
            final(self).wf(),
            final(self)@ == after_acquire(
                old(self)@,
                held_names(old(self).entry_names(), held@),
                name@,
                p,
            ),
            final(self)@.contains_key(name@),
            final(self)@[name@] == p,
    {
        self.retain_held(held);
        proof {
            lemma_entries_map(self.entries@);
        }
        match self.position(&name) {
            Some(i) => self.entries[i].pipe.share(),
            None => {
                let pipe = Pipe::new();
                let p = pipe.share();
                let ghost before = self.entries@;
                self.entries.push(PipeEntry { name, pipe });
                proof {
                    assert(self.entries@.drop_last() == before);
                    assert forall|a: int, b: int| 0 <= a < b < self.entries@.len() implies self.entries@[a].name@
                        != self.entries@[b].name@ by {
                        if b == before.len() {
                            assert(entries_map(before).contains_key(before[a].name@));
                        } else {
                            assert(before[a] == self.entries@[a] && before[b] == self.entries@[b]);
                        }
                    }
                }
                p
            },
        }
    }

    /// Sweeps the registry of the pipes that no handler holds, then hands out
    /// the pipe of `name`, creating it where none is left. Other names keep
    /// their pipes or are swept; none is added.
    pub fn acquire(&mut self, name: String) -> (p: Pipe<T>)
        requires
            old(self).wf(),
        ensures
            final(self).wf(),
            final(self)@.contains_key(name@),
            final(self)@[name@] == p,
            final(self)@.remove(name@).submap_of(old(self)@),
    {
        let held = holder_marks(&self.handle_counts());
        let p = self.acquire_with(name, &held);
        assert(final(self)@.remove(name@).submap_of(old(self)@)) by {
            assert forall|n: Seq<char>| #[trigger] final(self)@.remove(name@).contains_key(n) implies
                old(self)@.contains_key(n) && final(self)@.remove(name@)[n] == old(self)@[n] by {
            }
        }
        p
    }
}

/// Once no handler holds the pipe of `idle`, the next access to the registry,
/// for any other name, leaves `idle` unregistered.
pub proof fn lemma_idle_name_evicted<T>(
    reg: PipeRegistry<T>,
    held: Seq<bool>,
    k: int,
    accessed: Seq<char>,
    fresh: Pipe<T>,
)
    requires
        reg.wf(),
        held.len() == reg.entry_names().len(),
        0 <= k < held.len(),
        !held[k],
        accessed != reg.entry_names()[k],
    ensures
        !after_acquire(reg@, held_names(reg.entry_names(), held), accessed, fresh).contains_key(
            reg.entry_names()[k],
        ),
{
    reg.lemma_names_distinct();
    let idle = reg.entry_names()[k];
    if held_names(reg.entry_names(), held).contains(idle) {
        let i = choose|i: int|
            0 <= i < reg.entry_names().len() && held[i] && reg.entry_names()[i] == idle;
        assert(i != k);
    }
}

/// Distinct names are independent: an access for `accessed` leaves a pipe that
/// a handler still holds under another name registered, and the same pipe.
pub proof fn lemma_other_names_kept<T>(
    reg: PipeRegistry<T>,
    held: Seq<bool>,
    other: Seq<char>,
    accessed: Seq<char>,
    fresh: Pipe<T>,
)
    requires
        reg.wf(),
        held.len() == reg.entry_names().len(),
        reg@.contains_key(other),
        held_names(reg.entry_names(), held).contains(other),
        accessed != other,
    ensures
        after_acquire(reg@, held_names(reg.entry_names(), held), accessed, fresh).contains_key(other),
        after_acquire(reg@, held_names(reg.entry_names(), held), accessed, fresh)[other]
            == reg@[other],
{
}

/// Two handlers meet: while a handler holds the pipe of `name`, an access for
/// the same name hands out that same pipe, so a GET and a POST on one name
/// share one channel.
pub proof fn lemma_held_name_shares_pipe<T>(
    reg: PipeRegistry<T>,
    held: Seq<bool>,
    name: Seq<char>,
    fresh: Pipe<T>,
)
    requires
        reg.wf(),
        held.len() == reg.entry_names().len(),
        reg@.contains_key(name),
        held_names(reg.entry_names(), held).contains(name),
    ensures
        after_acquire(reg@, held_names(reg.entry_names(), held), name, fresh)[name] == reg@[name],
{
}

} // verus!