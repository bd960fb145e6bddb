//! Bookkeeping of the processes and threads that the tool supervises: which are
//! registered under which name, what happens when one stops, and in which order
//! they are shut down.
use vstd::prelude::*;
use crate::text::{chars_of, extend_str, str_eq, string_of};

verus! {

/// What happens when a supervised process or thread stops.
#[derive(Debug, Clone, Copy, PartialEq, Eq)]
pub enum OnStop {
    TriggerShutdown,
    Ignore,
}

/// A supervised process or thread.
pub struct ProcessEntry {
    pub name: String,
    pub on_stop: OnStop,
    /// Higher numbers are shut down first.
    pub shutdown_priority: u32,
}

/// The supervised processes by name, and whether shutdown has begun.
pub struct ProcessRegistry {
    entries: Vec<ProcessEntry>,
    shutdown_triggered: bool,
}

/// What the registry knows: each name's stop behaviour and priority, and whether
/// shutdown has begun.
#[verifier::ext_equal]
pub ghost struct ProcessRegistryView {
    pub processes: Map<Seq<char>, (OnStop, u32)>,
    pub shutdown_triggered: bool,
}

/// The registry after registering `name` with its stop behaviour and priority:
/// the entry of that name is replaced; once shutdown has begun nothing changes.
pub open spec fn registered(
    v: ProcessRegistryView,
    name: Seq<char>,
    on_stop: OnStop,
    priority: u32,
) -> ProcessRegistryView {
    if v.shutdown_triggered {
        v
    } else {
        ProcessRegistryView {
            processes: v.processes.insert(name, (on_stop, priority)),
            shutdown_triggered: false,
        }
    }
}

/// The registry after forgetting `name`.
pub open spec fn removed(v: ProcessRegistryView, name: Seq<char>) -> ProcessRegistryView {
    ProcessRegistryView { processes: v.processes.remove(name), shutdown_triggered: v.shutdown_triggered }
}

/// The registry once shutdown has begun.
pub open spec fn shut_down(v: ProcessRegistryView) -> ProcessRegistryView {
    ProcessRegistryView { processes: v.processes, shutdown_triggered: true }
}

/// Once shutdown has begun, no process or thread can be registered any more:
/// registering leaves the registry as it is.
pub proof fn law_no_register_after_shutdown(
    v: ProcessRegistryView,
    name: Seq<char>,
    on_stop: OnStop,
    priority: u32,
)
    ensures
        registered(shut_down(v), name, on_stop, priority) == shut_down(v),
{
}

/// Before shutdown, a registered name is found with the stop behaviour and
/// priority it was registered with, and the other names keep theirs.
pub proof fn law_register_then_lookup(
    v: ProcessRegistryView,
    name: Seq<char>,
    on_stop: OnStop,
    priority: u32,
    other: Seq<char>,
)
    requires
        !v.shutdown_triggered,
    ensures
        registered(v, name, on_stop, priority).processes.contains_key(name),
        registered(v, name, on_stop, priority).processes[name] == (on_stop, priority),
        other != name ==> registered(v, name, on_stop, priority).processes.contains_key(other)
            == v.processes.contains_key(other),
        other != name && v.processes.contains_key(other) ==> registered(
            v,
            name,
            on_stop,
            priority,
        ).processes[other] == v.processes[other],
{
}

/// Removing a name that was just registered (and was not registered before) gives
/// back the registry as it was.
pub proof fn law_remove_undoes_register(
    v: ProcessRegistryView,
    name: Seq<char>,
    on_stop: OnStop,
    priority: u32,
)
    requires
        !v.shutdown_triggered,
        !v.processes.contains_key(name),
    ensures
        removed(registered(v, name, on_stop, priority), name) == v,
{
    assert(v.processes.insert(name, (on_stop, priority)).remove(name) =~= v.processes);
}

/// Index of the entry named `name`.
pub open spec fn index_of(entries: Seq<ProcessEntry>, name: Seq<char>) -> int {
    choose|i: int| 0 <= i < entries.len() && entries[i].name@ == name
}

pub open spec fn has_name(entries: Seq<ProcessEntry>, name: Seq<char>) -> bool {
    exists|i: int| 0 <= i < entries.len() && #[trigger] entries[i].name@ == name
}

/// The map from names to entries that a sequence of entries with distinct names
/// stands for.
pub open spec fn entries_map(entries: Seq<ProcessEntry>) -> Map<Seq<char>, (OnStop, u32)> {
    Map::new(
        |k: Seq<char>| has_name(entries, k),
        |k: Seq<char>|
            {
                let i = index_of(entries, k);
                (entries[i].on_stop, entries[i].shutdown_priority)
            },
    )
}

pub open spec fn names_distinct(entries: Seq<ProcessEntry>) -> bool {
    forall|i: int, j: int|
        0 <= i < entries.len() && 0 <= j < entries.len() && i != j ==> (#[trigger] entries[i]).name@
            != (#[trigger] entries[j]).name@
}

impl View for ProcessRegistry {
    type V = ProcessRegistryView;

    closed spec fn view(&self) -> ProcessRegistryView {
        ProcessRegistryView {
            processes: entries_map(self.entries@),
            shutdown_triggered: self.shutdown_triggered,
        }
    }
}

proof fn lemma_lookup(entries: Seq<ProcessEntry>, i: int)
    requires
        names_distinct(entries),
        0 <= i < entries.len(),
    ensures
        entries_map(entries).contains_key(entries[i].name@),
        entries_map(entries)[entries[i].name@] == (entries[i].on_stop, entries[i].shutdown_priority),
{
    assert(has_name(entries, entries[i].name@));
    let j = index_of(entries, entries[i].name@);
    assert(i == j);
}

impl ProcessRegistry {
    /// The registry keeps each name once.
    pub closed spec fn well_formed(&self) -> bool {
        names_distinct(self.entries@)
    }

    /// An empty registry, before any shutdown.
    pub fn new() -> (r: Self)
        ensures
            r.well_formed(),
            r@.processes == Map::<Seq<char>, (OnStop, u32)>::empty(),
            !r@.shutdown_triggered,
    {
        let r = ProcessRegistry { entries: Vec::new(), shutdown_triggered: false };
        assert(r@.processes =~= Map::<Seq<char>, (OnStop, u32)>::empty());
        r
    }

    /// Whether shutdown has begun.
    pub fn is_shutdown_triggered(&self) -> (r: bool)
        ensures
            r == self@.shutdown_triggered,
    {
        self.shutdown_triggered
    }

    /// Whether nothing is registered.
    pub fn is_empty(&self) -> (r: bool)
        requires
            self.well_formed(),
        ensures
            r == (self@.processes.dom() == Set::<Seq<char>>::empty()),
    {
        if self.entries.len() == 0 {
            assert(self@.processes.dom() =~= Set::<Seq<char>>::empty());
            true
        } else {
            proof {
                lemma_lookup(self.entries@, 0);
            }
            assert(self@.processes.dom().contains(self.entries@[0].name@));
            false
        }
    }

    fn find(&self, name: &str) -> (r: Option<usize>)
        requires
            self.well_formed(),
        ensures
            match r {
                Some(i) => i < self.entries@.len() && self.entries@[i as int].name@ == name@,
                None => !has_name(self.entries@, name@),
            },
    {
        let mut i: usize = 0;
        while i < self.entries.len()
            invariant
                i <= self.entries@.len(),
                forall|j: int| 0 <= j < i ==> self.entries@[j].name@ != name@,
            decreases self.entries@.len() - i,
        {
            if str_eq(self.entries[i].name.as_str(), name) {
                return Some(i);
            }
            i = i + 1;
        }
        None
    }

    /// Registers a started process or thread under `name`, replacing an entry of
    /// that name. Once shutdown has begun nothing is registered any more, and the
    /// result says so.
    pub fn register(&mut self, name: &str, on_stop: OnStop, shutdown_priority: u32) -> (r: bool)
        requires
            old(self).well_formed(),
        ensures
            final(self).well_formed(),
            r == !old(self)@.shutdown_triggered,
            r ==> final(self)@.processes == old(self)@.processes.insert(
                name@,
                (on_stop, shutdown_priority),
            ),
            !r ==> final(self)@ == old(self)@,
            final(self)@.shutdown_triggered == old(self)@.shutdown_triggered,
            final(self)@ == registered(old(self)@, name@, on_stop, shutdown_priority),
    {
        if self.shutdown_triggered {
            return false;
        }
        let ghost old_entries = self.entries@;
        let entry = ProcessEntry {
            name: string_of(chars_of(name).as_slice()),
            on_stop,
            shutdown_priority,
        };
        match self.find(name) {
            Some(i) => {
                self.entries.set(i, entry);
                proof {
                    let e = self.entries@;
                    assert(names_distinct(e));
                    assert forall|k: Seq<char>|
                        #![trigger entries_map(e).contains_key(k)]
                        entries_map(e).contains_key(k) == old(self)@.processes.insert(
                            name@,
                            (on_stop, shutdown_priority),
                        ).contains_key(k) by {
                        if k == name@ {
                            assert(e[i as int].name@ == k);
                        } else if has_name(e, k) {
                            let j = choose|j: int| 0 <= j < e.len() && #[trigger] e[j].name@ == k;
                            assert(old_entries[j].name@ == k);
                        } else if has_name(old_entries, k) {
                            let j = choose|j: int|
                                0 <= j < old_entries.len() && #[trigger] old_entries[j].name@ == k;
                            assert(e[j].name@ == k);
                        }
                    }
                    assert forall|k: Seq<char>| #[trigger]
                        entries_map(e).contains_key(k) implies entries_map(e)[k]
                        == old(self)@.processes.insert(name@, (on_stop, shutdown_priority))[k] by {
                        let j = index_of(e, k);
                        lemma_lookup(e, j);
                        if k != name@ {
                            assert(old_entries[j] == e[j]);
                            lemma_lookup(old_entries, j);
                        }
                    }
                    assert(entries_map(e) =~= old(self)@.processes.insert(
                        name@,
                        (on_stop, shutdown_priority),
                    ));
                }
            },
            None => {
                self.entries.push(entry);
                proof {
                    let e = self.entries@;
                    assert(names_distinct(e));
                    assert forall|k: Seq<char>|
                        #![trigger entries_map(e).contains_key(k)]
                        entries_map(e).contains_key(k) == old(self)@.processes.insert(
                            name@,
                            (on_stop, shutdown_priority),
                        ).contains_key(k) by {
                        if k == name@ {
                            assert(e[e.len() - 1].name@ == k);
                        } else if has_name(e, k) {
                            let j = choose|j: int| 0 <= j < e.len() && #[trigger] e[j].name@ == k;
                            assert(old_entries[j].name@ == k);
                        } else if has_name(old_entries, k) {
                            let j = choose|j: int|
                                0 <= j < old_entries.len() && #[trigger] old_entries[j].name@ == k;
                            assert(e[j].name@ == k);
                        }
                    }
                    assert forall|k: Seq<char>| #[trigger]
                        entries_map(e).contains_key(k) implies entries_map(e)[k]
                        == old(self)@.processes.insert(name@, (on_stop, shutdown_priority))[k] by {
                        let j = index_of(e, k);
                        lemma_lookup(e, j);
                        if k != name@ {
                            assert(old_entries[j] == e[j]);
                            lemma_lookup(old_entries, j);
                        }
                    }
                    assert(entries_map(e) =~= old(self)@.processes.insert(
                        name@,
                        (on_stop, shutdown_priority),
                    ));
                }
            },
        }
        true
    }

    /// Forgets the process or thread named `name` once it has stopped.
    pub fn remove(&mut self, name: &str)
        requires
            old(self).well_formed(),
        ensures
            final(self).well_formed(),
            final(self)@.processes == old(self)@.processes.remove(name@),
            final(self)@.shutdown_triggered == old(self)@.shutdown_triggered,
            final(self)@ == removed(old(self)@, name@),
    {
        let ghost old_entries = self.entries@;
        match self.find(name) {
            Some(i) => {
                self.entries.remove(i);
                proof {
                    let e = self.entries@;
                    assert forall|a: int, b: int|
                        0 <= a < e.len() && 0 <= b < e.len() && a != b implies (#[trigger] e[a]).name@
                        != (#[trigger] e[b]).name@ by {
                        let a2 = if a < i { a } else { a + 1 };
                        let b2 = if b < i { b } else { b + 1 };
                        assert(e[a] == old_entries[a2]);
                        assert(e[b] == old_entries[b2]);
                    }
                    assert forall|k: Seq<char>|
                        #![trigger entries_map(e).contains_key(k)]
                        entries_map(e).contains_key(k) == old(self)@.processes.remove(
                            name@,
                        ).contains_key(k) by {
                        if has_name(e, k) {
                            let j = choose|j: int| 0 <= j < e.len() && #[trigger] e[j].name@ == k;
                            let j2 = if j < i { j } else { j + 1 };
                            assert(old_entries[j2].name@ == k);
                        } else if has_name(old_entries, k) && k != name@ {
                            let j = choose|j: int|
                                0 <= j < old_entries.len() && #[trigger] old_entries[j].name@ == k;
                            if j < i {
                                assert(e[j].name@ == k);
                            } else {
                                assert(j != i);
                                assert(e[j - 1].name@ == k);
                            }
                        }
                    }
                    assert forall|k: Seq<char>| #[trigger]
                        entries_map(e).contains_key(k) implies entries_map(e)[k]
                        == old(self)@.processes.remove(name@)[k] by {
                        let j = index_of(e, k);
                        lemma_lookup(e, j);
                        let j2 = if j < i { j } else { j + 1 };
                        assert(old_entries[j2] == e[j]);
                        lemma_lookup(old_entries, j2);
                    }
                    assert(entries_map(e) =~= old(self)@.processes.remove(name@));
                }
            },
            None => {
                assert(self@.processes =~= old(self)@.processes.remove(name@));
            },
        }
    }

    /// Begins shutdown: from now on nothing is registered. Gives each registered
    /// name once, with its priority, highest priority first.
    pub fn trigger_shutdown(&mut self) -> (r: Vec<(String, u32)>)
        requires
            old(self).well_formed(),
        ensures
            final(self).well_formed(),
            final(self)@.shutdown_triggered,
            final(self)@.processes == old(self)@.processes,
            final(self)@ == shut_down(old(self)@),
            r@.len() == old(self)@.processes.dom().len(),
            forall|i: int, j: int|
                0 <= i < j < r@.len() ==> (#[trigger] r@[i]).1 >= (#[trigger] r@[j]).1,
            forall|i: int|
                0 <= i < r@.len() ==> old(self)@.processes.contains_key((#[trigger] r@[i]).0@)
                    && old(self)@.processes[r@[i].0@].1 == r@[i].1,
            forall|k: Seq<char>|
                #[trigger] old(self)@.processes.contains_key(k) ==> exists|i: int|
                    0 <= i < r@.len() && (#[trigger] r@[i]).0@ == k,
            forall|i: int, j: int|
                0 <= i < r@.len() && 0 <= j < r@.len() && i != j ==> (#[trigger] r@[i]).0@
                    != (#[trigger] r@[j]).0@,
    {
        self.shutdown_triggered = true;
        let ghost es = self.entries@;
        let mut order: Vec<(String, u32)> = Vec::new();
        let mut n: usize = 0;
        while n < self.entries.len()
            invariant
                es == self.entries@,
                names_distinct(es),
                n <= es.len(),
                order_covers(order@, es, n as int),
            decreases es.len() - n,
        {
            let p = self.entries[n].shutdown_priority;
            let mut k: usize = 0;
            while k < order.len() && order[k].1 >= p
                invariant
                    k <= order@.len(),
                    forall|i: int| 0 <= i < k ==> (#[trigger] order@[i]).1 >= p,
                decreases order@.len() - k,
            {
                k = k + 1;
            }
            let ghost before = order@;
            let item = (self.entries[n].name.clone(), p);
            order.insert(k, item);
            proof {
                lemma_insert_keeps_order(before, order@, k as int, es, n as int);
            }
            n = n + 1;
        }
        proof {
            let pm = entries_map(es);
            assert forall|i: int| 0 <= i < order@.len() implies pm.contains_key(
                (#[trigger] order@[i]).0@,
            ) && pm[order@[i].0@].1 == order@[i].1 by {
                let m = choose|m: int|
                    0 <= m < n && es[m].name@ == (#[trigger] order@[i]).0@
                        && es[m].shutdown_priority == order@[i].1;
                lemma_lookup(es, m);
            }
            assert forall|k: Seq<char>| #[trigger] pm.contains_key(k) implies exists|i: int|
                0 <= i < order@.len() && (#[trigger] order@[i]).0@ == k by {
                let m = choose|m: int| 0 <= m < es.len() && #[trigger] es[m].name@ == k;
                assert(es[m].name@ == k);
            }
            lemma_dom_len(es);
        }
        order
    }
}


/// What the shutdown order holds about the first `n` entries.
pub open spec fn order_covers(order: Seq<(String, u32)>, es: Seq<ProcessEntry>, n: int) -> bool {
    &&& order.len() == n
    &&& forall|i: int, j: int| 0 <= i < j < order.len() ==> (#[trigger] order[i]).1 >= (#[trigger] order[j]).1
    &&& forall|i: int|
        0 <= i < order.len() ==> exists|m: int|
            0 <= m < n && es[m].name@ == (#[trigger] order[i]).0@ && es[m].shutdown_priority == order[i].1
    &&& forall|m: int|
        0 <= m < n ==> exists|i: int| 0 <= i < order.len() && (#[trigger] order[i]).0@ == (#[trigger] es[m]).name@
    &&& forall|i: int, j: int|
        0 <= i < order.len() && 0 <= j < order.len() && i != j ==> (#[trigger] order[i]).0@ != (#[trigger] order[j]).0@
}

pub open spec fn insert_setting(
    before: Seq<(String, u32)>,
    after: Seq<(String, u32)>,
    k: int,
    es: Seq<ProcessEntry>,
    n: int,
) -> bool {
    &&& names_distinct(es)
    &&& 0 <= n < es.len()
    &&& order_covers(before, es, n)
    &&& 0 <= k <= before.len()
    &&& forall|i: int| 0 <= i < k ==> (#[trigger] before[i]).1 >= es[n].shutdown_priority
    &&& k < before.len() ==> before[k].1 < es[n].shutdown_priority
    &&& after == before.insert(k, (after[k].0, es[n].shutdown_priority))
    &&& after[k].0@ == es[n].name@
}

proof fn lemma_insert_sorted(before: Seq<(String, u32)>, after: Seq<(String, u32)>, k: int, es: Seq<ProcessEntry>, n: int)
    requires
        insert_setting(before, after, k, es, n),
    ensures
        forall|i: int, j: int| 0 <= i < j < after.len() ==> (#[trigger] after[i]).1 >= (#[trigger] after[j]).1,
{
    assert forall|i: int, j: int| 0 <= i < j < after.len() implies (#[trigger] after[i]).1 >= (
    #[trigger] after[j]).1 by {
        if i < k && j > k {
            assert(after[i] == before[i]);
            assert(after[j] == before[j - 1]);
            assert(before[i].1 >= before[j - 1].1);
        } else if i < k && j == k {
            assert(after[i] == before[i]);
        } else if i == k && j > k {
            assert(after[j] == before[j - 1]);
            assert(before[k].1 >= before[j - 1].1);
        } else if i > k {
            assert(after[i] == before[i - 1]);
            assert(after[j] == before[j - 1]);
            assert(before[i - 1].1 >= before[j - 1].1);
        } else {
            assert(after[i] == before[i]);
            assert(after[j] == before[j]);
            assert(before[i].1 >= before[j].1);
        }
    }
}

proof fn lemma_insert_sourced(before: Seq<(String, u32)>, after: Seq<(String, u32)>, k: int, es: Seq<ProcessEntry>, n: int)
    requires
        insert_setting(before, after, k, es, n),
    ensures
        forall|i: int|
            0 <= i < after.len() ==> exists|m: int|
                0 <= m < n + 1 && es[m].name@ == (#[trigger] after[i]).0@ && es[m].shutdown_priority == after[i].1,
{
    assert forall|i: int| 0 <= i < after.len() implies exists|m: int|
        0 <= m < n + 1 && es[m].name@ == (#[trigger] after[i]).0@ && es[m].shutdown_priority
            == after[i].1 by {
        if i < k {
            assert(after[i] == before[i]);
        } else if i > k {
            assert(after[i] == before[i - 1]);
        } else {
            assert(es[n].name@ == after[i].0@);
        }
    }
}

proof fn lemma_insert_complete(before: Seq<(String, u32)>, after: Seq<(String, u32)>, k: int, es: Seq<ProcessEntry>, n: int)
    requires
        insert_setting(before, after, k, es, n),
    ensures
        forall|m: int|
            0 <= m < n + 1 ==> exists|i: int| 0 <= i < after.len() && (#[trigger] after[i]).0@ == (#[trigger] es[m]).name@,
{
    assert forall|m: int| 0 <= m < n + 1 implies exists|i: int|
        0 <= i < after.len() && (#[trigger] after[i]).0@ == (#[trigger] es[m]).name@ by {
        if m == n {
            assert(after[k].0@ == es[m].name@);
        } else {
            let i0 = choose|i: int| 0 <= i < before.len() && (#[trigger] before[i]).0@ == es[m].name@;
            if i0 < k {
                assert(after[i0] == before[i0]);
            } else {
                assert(after[i0 + 1] == before[i0]);
            }
        }
    }
}

proof fn lemma_insert_distinct(before: Seq<(String, u32)>, after: Seq<(String, u32)>, k: int, es: Seq<ProcessEntry>, n: int)
    requires
        insert_setting(before, after, k, es, n),
    ensures
        forall|i: int, j: int|
            0 <= i < after.len() && 0 <= j < after.len() && i != j ==> (#[trigger] after[i]).0@ != (#[trigger] after[j]).0@,
{
    assert forall|i: int, j: int|
        0 <= i < after.len() && 0 <= j < after.len() && i != j implies (#[trigger] after[i]).0@ != (
        #[trigger] after[j]).0@ by {
        let bi = if i < k { i } else { i - 1 };
        let bj = if j < k { j } else { j - 1 };
        if i != k && j != k {
            assert(after[i] == before[bi]);
            assert(after[j] == before[bj]);
        } else if i == k {
            assert(after[j] == before[bj]);
            let m = choose|m: int|
                0 <= m < n && es[m].name@ == (#[trigger] before[bj]).0@ && es[m].shutdown_priority
                    == before[bj].1;
            assert(es[m].name@ != es[n].name@);
        } else {
            assert(after[i] == before[bi]);
            let m = choose|m: int|
                0 <= m < n && es[m].name@ == (#[trigger] before[bi]).0@ && es[m].shutdown_priority
                    == before[bi].1;
            assert(es[m].name@ != es[n].name@);
        }
    }
}

proof fn lemma_insert_keeps_order(
    before: Seq<(String, u32)>,
    after: Seq<(String, u32)>,
    k: int,
    es: Seq<ProcessEntry>,
    n: int,
)
    requires
        insert_setting(before, after, k, es, n),
    ensures
        order_covers(after, es, n + 1),
{
    lemma_insert_sorted(before, after, k, es, n);
    lemma_insert_sourced(before, after, k, es, n);
    lemma_insert_complete(before, after, k, es, n);
    lemma_insert_distinct(before, after, k, es, n);
}

/// With distinct names, the map has one key per entry.
proof fn lemma_dom_len(entries: Seq<ProcessEntry>)
    requires
        names_distinct(entries),
    ensures
        entries_map(entries).dom().finite(),
        entries_map(entries).dom().len() == entries.len(),
    decreases entries.len(),
{
    if entries.len() == 0 {
        assert(entries_map(entries).dom() =~= Set::<Seq<char>>::empty());
    } else {
        let prefix = entries.drop_last();
        let last = entries.last();
        assert(names_distinct(prefix)) by {
            assert forall|i: int, j: int|
                0 <= i < prefix.len() && 0 <= j < prefix.len() && i != j implies (
                #[trigger] prefix[i]).name@ != (#[trigger] prefix[j]).name@ by {
                assert(prefix[i] == entries[i]);
                assert(prefix[j] == entries[j]);
            }
        }
        lemma_dom_len(prefix);
        assert(!entries_map(prefix).dom().contains(last.name@)) by {
            if has_name(prefix, last.name@) {
                let j = choose|j: int| 0 <= j < prefix.len() && #[trigger] prefix[j].name@ == last.name@;
                assert(entries[j].name@ == entries[entries.len() - 1].name@);
            }
        }
        assert(entries_map(entries).dom() =~= entries_map(prefix).dom().insert(last.name@)) by {
            assert forall|k: Seq<char>| entries_map(entries).dom().contains(k) implies entries_map(
                prefix,
            ).dom().insert(last.name@).contains(k) by {
                let j = choose|j: int| 0 <= j < entries.len() && #[trigger] entries[j].name@ == k;
                if j < entries.len() - 1 {
                    assert(prefix[j].name@ == k);
                }
            }
            assert forall|k: Seq<char>| entries_map(prefix).dom().insert(last.name@).contains(
                k,
            ) implies entries_map(entries).dom().contains(k) by {
                if k == last.name@ {
                    assert(entries[entries.len() - 1].name@ == k);
                } else {
                    let j = choose|j: int| 0 <= j < prefix.len() && #[trigger] prefix[j].name@ == k;
                    assert(entries[j].name@ == k);
                }
            }
        }
        vstd::set::axiom_set_insert_len(entries_map(prefix).dom(), last.name@);
    }
}

/// The name of the thread that follows the logs of process `name`.
pub open spec fn log_process_name(name: Seq<char>) -> Seq<char> {
    "sys-"@ + name + "-log"@
}

/// The name of the log-following thread of a process.
pub fn log_process_name_of(name: &str) -> (r: String)
    ensures
        r@ == log_process_name(name@),
{
    let mut v = chars_of("sys-");
    extend_str(&mut v, name);
    extend_str(&mut v, "-log");
    string_of(v.as_slice())
}

/// A log-following thread is shut down just after its process: one priority
/// step lower (never below zero).
pub fn log_process_priority(shutdown_priority: u32) -> (r: u32)
    ensures
        r == if shutdown_priority == 0 {
            0
        } else {
            (shutdown_priority - 1) as u32
        },
{
    shutdown_priority.saturating_sub(1)
}

/// `s` without its trailing run of `c` (as `str::trim_end_matches` with a
/// character gives it).
pub open spec fn strip_trailing(s: Seq<char>, c: char) -> Seq<char>
    decreases s.len(),
{
    if s.len() > 0 && s.last() == c {
        strip_trailing(s.drop_last(), c)
    } else {
        s
    }
}

fn strip_trailing_chars(s: Vec<char>, c: char) -> (r: Vec<char>)
    ensures
        r@ == strip_trailing(s@, c),
{
    let mut v = s;
    while v.len() > 0 && v[v.len() - 1] == c
        invariant
            strip_trailing(s@, c) == strip_trailing(v@, c),
        decreases v@.len(),
    {
        let ghost before = v@;
        v.pop();
        assert(v@ =~= before.drop_last());
    }
    v
}

/// The line to print for a line read from a log file: without its trailing
/// newlines and then its trailing carriage returns; empty lines are not printed.
pub open spec fn printed_line(line: Seq<char>) -> Option<Seq<char>> {
    let t = strip_trailing(strip_trailing(line, '\n'), '\r');
    if t.len() == 0 {
        None
    } else {
        Some(t)
    }
}

/// The line to print for a line read from a log file, if any.
pub fn log_line_to_print(line: &str) -> (r: Option<String>)
    ensures
        match printed_line(line@) {
            Some(t) => r matches Some(s) && s@ == t,
            None => r is None,
        },
{
    let a = strip_trailing_chars(chars_of(line), '\n');
    let b = strip_trailing_chars(a, '\r');
    if b.len() == 0 {
        None
    } else {
        Some(string_of(b.as_slice()))
    }
}

/// Where to continue reading a log file of `size` bytes after having read up to
/// `position`: a file that shrank was truncated and is read from the start.
pub fn log_read_position(position: u64, size: u64) -> (r: u64)
    ensures
        r == if size < position {
            0
        } else {
            position
        },
{
    if size < position {
        0
    } else {
        position
    }
}

} // verus!
