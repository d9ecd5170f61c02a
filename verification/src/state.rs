//! State shared between the sync loop and the IPC server.
//!
//! Clock-handling invariants: watchman clocks are opaque and live only
//! inside this process. Every clock the server receives is tagged with a
//! local monotonic sequence number drawn from [`ServerState::next_seq`], and
//! all ordering is done on those sequence numbers; clock strings are never
//! parsed or compared.
//!
//! `T` is how a time is represented.

use crate::json::Json;
use crate::names::{name_before, text_le, text_order_is_total, text_order_is_transitive};
use crate::target::{Target, TargetView};
use crate::text::{chars_of, group_views, same_chars, views};
use crate::wquery::{clock_json, copy_clock};
use vstd::prelude::*;
use watchman_client::prelude::Clock;

verus! {

/// The record of a completed sync: the watchman clock it covers (opaque;
/// ordered only by `seq`, the receipt-order sequence number assigned when
/// the clock arrived over our watchman connection) and when it finished.
#[derive(Debug)]
pub struct SyncedClock<T> {
    pub seq: u64,
    pub clock: Clock,
    pub completed_at: T,
}

/// The record of an in-flight sync: the sequence number of the clock it
/// will cover once it completes, and when it started.
#[derive(Debug, Clone, Copy)]
pub struct SyncingClock<T> {
    pub seq: u64,
    pub started_at: T,
}

/// Per-replica sync state, per the "state not flags" principle: we record
/// what has been synced (and what is being synced), never booleans like
/// "up to date".
#[derive(Debug)]
pub struct ReplicaState<T> {
    pub target: Target,
    pub synced: Option<SyncedClock<T>>,
    pub syncing: Option<SyncingClock<T>>,
}

/// What a [`SyncedClock`] stands for.
pub struct SyncedView<T> {
    pub seq: u64,
    pub clock: Option<Json>,
    pub completed_at: T,
}

/// What a [`ReplicaState`] stands for.
pub struct ReplicaView<T> {
    pub target: TargetView,
    pub synced: Option<SyncedView<T>>,
    pub syncing: Option<SyncingClock<T>>,
}

impl<T> View for SyncedClock<T> {
    type V = SyncedView<T>;

    open spec fn view(&self) -> SyncedView<T> {
        SyncedView {
            seq: self.seq,
            clock: clock_json(self.clock),
            completed_at: self.completed_at,
        }
    }
}

impl<T> View for ReplicaState<T> {
    type V = ReplicaView<T>;

    open spec fn view(&self) -> ReplicaView<T> {
        ReplicaView {
            target: self.target@,
            synced: match self.synced {
                Some(synced) => Some(synced@),
                None => None,
            },
            syncing: self.syncing,
        }
    }
}

/// A copy of a target.
fn copy_target(target: &Target) -> (copy: Target)
    ensures
        copy@ == target@,
{
    match target {
        Target::Local(path) => Target::Local(crate::paths::copy_bytes(path.as_slice())),
        Target::Remote { host, path } => Target::Remote {
            host: host.clone(),
            path: path.clone(),
        },
    }
}

impl<T: Copy> ReplicaState<T> {
    /// A copy of the state.
    pub fn copy(&self) -> (copy: ReplicaState<T>)
        ensures
            copy@ == self@,
    {
        ReplicaState {
            target: copy_target(&self.target),
            synced: match &self.synced {
                Some(synced) => Some(
                    SyncedClock {
                        seq: synced.seq,
                        clock: copy_clock(&synced.clock),
                        completed_at: synced.completed_at,
                    },
                ),
                None => None,
            },
            syncing: match &self.syncing {
                Some(syncing) => Some(
                    SyncingClock { seq: syncing.seq, started_at: syncing.started_at },
                ),
                None => None,
            },
        }
    }
}

/// State for the whole `ds sync` server process.
#[derive(Debug)]
pub struct ServerState<T> {
    pid: u32,
    started_at: T,
    next_seq: u64,
    /// In order of their names.
    replicas: Vec<(String, ReplicaState<T>)>,
    /// Bumped whenever any replica records a completed sync; parked barrier
    /// requests remember it and re-check their replica's state whenever it
    /// has changed.
    synced_generation: u64,
}

/// What a [`ServerState`] stands for.
pub struct ServerView<T> {
    pub pid: u32,
    pub started_at: T,
    pub next_seq: u64,
    pub replicas: Map<Seq<char>, ReplicaView<T>>,
    pub synced_generation: u64,
}

/// Whether entry `i` is the one of that name.
pub open spec fn named<T>(
    replicas: Seq<(String, ReplicaState<T>)>,
    name: Seq<char>,
    i: int,
) -> bool {
    0 <= i < replicas.len() && replicas[i].0@ == name
}

/// The states of replicas by their names.
pub open spec fn by_name<T>(replicas: Seq<(String, ReplicaState<T>)>) -> Map<
    Seq<char>,
    ReplicaView<T>,
> {
    Map::new(
        |name: Seq<char>| exists|i: int| named(replicas, name, i),
        |name: Seq<char>| replicas[choose|i: int| named(replicas, name, i)].1@,
    )
}

/// Whether replicas stand in order of their names, no name twice.
pub open spec fn ordered<T>(replicas: Seq<(String, ReplicaState<T>)>) -> bool {
    forall|i: int, j: int|
        0 <= i < j < replicas.len() ==> text_le(
            #[trigger] replicas[i].0@,
            #[trigger] replicas[j].0@,
        ) && replicas[i].0@ != replicas[j].0@
}

/// Whether `names` are the names of the replicas, in order and each once.
pub open spec fn lists<T>(names: Seq<Seq<char>>, replicas: Map<Seq<char>, ReplicaView<T>>) -> bool {
    &&& forall|name: Seq<char>| replicas.dom().contains(name) <==> names.contains(name)
    &&& forall|i: int, j: int|
        0 <= i < j < names.len() ==> text_le(#[trigger] names[i], #[trigger] names[j]) && names[i]
            != names[j]
}

impl<T> View for ServerState<T> {
    type V = ServerView<T>;

    closed spec fn view(&self) -> ServerView<T> {
        ServerView {
            pid: self.pid,
            started_at: self.started_at,
            next_seq: self.next_seq,
            replicas: by_name(self.replicas@),
            synced_generation: self.synced_generation,
        }
    }
}

proof fn lemma_by_name<T>(replicas: Seq<(String, ReplicaState<T>)>, i: int)
    requires
        ordered(replicas),
        0 <= i < replicas.len(),
    ensures
        by_name(replicas).dom().contains(replicas[i].0@),
        by_name(replicas)[replicas[i].0@] == replicas[i].1@,
{
    let name = replicas[i].0@;
    assert(named(replicas, name, i));
    let k = choose|k: int| named(replicas, name, k);
    assert(k == i) by {
        if k < i {
            assert(replicas[k].0@ != replicas[i].0@);
        } else if i < k {
            assert(replicas[i].0@ != replicas[k].0@);
        }
    }
}

proof fn lemma_same_order<T>(
    a: Seq<(String, ReplicaState<T>)>,
    b: Seq<(String, ReplicaState<T>)>,
)
    requires
        ordered(a),
        a.len() == b.len(),
        forall|k: int| 0 <= k < a.len() ==> (#[trigger] a[k]).0@ == b[k].0@,
    ensures
        ordered(b),
{
    assert forall|i: int, j: int| 0 <= i < j < b.len() implies text_le(
        #[trigger] b[i].0@,
        #[trigger] b[j].0@,
    ) && b[i].0@ != b[j].0@ by {
        assert(a[i].0@ == b[i].0@ && a[j].0@ == b[j].0@);
        assert(text_le(a[i].0@, a[j].0@) && a[i].0@ != a[j].0@);
    }
}

proof fn lemma_replaced<T>(
    a: Seq<(String, ReplicaState<T>)>,
    b: Seq<(String, ReplicaState<T>)>,
    i: int,
)
    requires
        ordered(a),
        0 <= i < a.len(),
        a.len() == b.len(),
        forall|k: int| 0 <= k < a.len() ==> (#[trigger] a[k]).0@ == b[k].0@,
        forall|k: int| 0 <= k < a.len() && k != i ==> (#[trigger] a[k]).1@ == b[k].1@,
    ensures
        ordered(b),
        by_name(b) == by_name(a).insert(a[i].0@, b[i].1@),
{
    lemma_same_order(a, b);
    let updated = by_name(a).insert(a[i].0@, b[i].1@);
    assert forall|name: Seq<char>| by_name(b).dom().contains(name) == updated.dom().contains(
        name,
    ) by {
        if by_name(b).dom().contains(name) {
            let k = choose|k: int| named(b, name, k);
            assert(a[k].0@ == b[k].0@);
            assert(named(a, name, k));
        }
        if by_name(a).dom().contains(name) {
            let k = choose|k: int| named(a, name, k);
            assert(a[k].0@ == b[k].0@);
            assert(named(b, name, k));
        }
        if name == a[i].0@ {
            assert(named(b, name, i));
        }
    }
    assert forall|name: Seq<char>| by_name(b).dom().contains(name) implies by_name(b)[name]
        == updated[name] by {
        let k = choose|k: int| named(b, name, k);
        lemma_by_name(b, k);
        assert(a[k].0@ == b[k].0@);
        lemma_by_name(a, k);
        if k != i {
            if k < i {
                assert(a[k].0@ != a[i].0@);
            } else {
                assert(a[i].0@ != a[k].0@);
            }
        }
    }
    assert(by_name(b) =~= updated);
}

/// Whether `f` may turn `before` into `after` with the result `ret`.
pub open spec fn gives<T, R, F: FnOnce(ReplicaState<T>) -> (ReplicaState<T>, R)>(
    f: F,
    before: ReplicaState<T>,
    after: ReplicaState<T>,
    ret: R,
) -> bool {
    call_ensures(f, (before,), (after, ret))
}

/// Whether `f` may have mutated the replica of that name, and nothing else,
/// with the result `ret`.
pub open spec fn mutated<T, R, F: FnOnce(ReplicaState<T>) -> (ReplicaState<T>, R)>(
    old_view: ServerView<T>,
    new_view: ServerView<T>,
    name: Seq<char>,
    f: F,
    ret: R,
) -> bool {
    old_view.replicas.dom().contains(name) && exists|
        before: ReplicaState<T>,
        after: ReplicaState<T>,
    | #[trigger]
        gives(f, before, after, ret) && before@ == old_view.replicas[name] && new_view == (
        ServerView { replicas: old_view.replicas.insert(name, after@), ..old_view })
}

impl<T> ServerState<T> {
    /// The replicas stand in order of their names, no name twice.
    pub closed spec fn well_formed(&self) -> bool {
        ordered(self.replicas@)
    }

    /// The state of a server process without replicas.
    pub fn new(pid: u32, started_at: T) -> (state: ServerState<T>)
        ensures
            state.well_formed(),
            state@ == (ServerView {
                pid,
                started_at,
                next_seq: 1,
                replicas: Map::empty(),
                synced_generation: 0,
            }),
    {
        let state = ServerState {
            pid,
            started_at,
            next_seq: 1,
            replicas: Vec::new(),
            synced_generation: 0,
        };
        proof {
            assert(by_name(state.replicas@) =~= Map::empty());
        }
        state
    }

    /// The PID of the server process.
    pub fn pid(&self) -> (pid: u32)
        ensures
            pid == self@.pid,
    {
        self.pid
    }

    /// Assign the next receipt-order sequence number. Called (serially, in
    /// receipt order) for each clock observed over the watchman connection.
    pub fn next_seq(&mut self) -> (seq: u64)
        requires
            old(self).well_formed(),
        ensures
            final(self).well_formed(),
            seq == old(self)@.next_seq,
            final(self)@ == (ServerView {
                next_seq: old(self)@.next_seq.wrapping_add(1),
                ..old(self)@
            }),
    {
        let seq: u64 = self.next_seq;
        self.next_seq = seq.wrapping_add(1);
        seq
    }

    /// Where the replica of that name is, if there is one.
    fn find(&self, name: &str) -> (found: Option<usize>)
        requires
            self.well_formed(),
        ensures
            match found {
                Some(i) => i < self.replicas@.len() && self.replicas@[i as int].0@ == name@
                    && self@.replicas.dom().contains(name@) && self@.replicas[name@]
                    == self.replicas@[i as int].1@,
                None => !self@.replicas.dom().contains(name@),
            },
    {
        let wanted = chars_of(name);
        for i in 0..self.replicas.len()
            invariant
                ordered(self.replicas@),
                wanted@ == name@,
                forall|k: int| 0 <= k < i ==> (#[trigger] self.replicas@[k]).0@ != name@,
        {
            let chars = chars_of(self.replicas[i].0.as_str());
            if same_chars(chars.as_slice(), wanted.as_slice()) {
                proof {
                    lemma_by_name(self.replicas@, i as int);
                }
                return Some(i);
            }
        }
        proof {
            if by_name(self.replicas@).dom().contains(name@) {
                let k = choose|k: int| named(self.replicas@, name@, k);
                assert(self.replicas@[k].0@ == name@);
            }
        }
        None
    }

    /// Names of all live replicas, in order.
    pub fn replica_names(&self) -> (names: Vec<String>)
        requires
            self.well_formed(),
        ensures
            lists(views(names@), self@.replicas),
    {
        broadcast use group_views;

        let mut names: Vec<String> = Vec::new();
        for i in 0..self.replicas.len()
            invariant
                names@.len() == i,
                forall|k: int| 0 <= k < i ==> (#[trigger] names@[k])@ == self.replicas@[k].0@,
        {
            names.push(self.replicas[i].0.clone());
        }
        proof {
            let all = self.replicas@;
            assert forall|name: Seq<char>|
                self@.replicas.dom().contains(name) <==> views(names@).contains(name) by {
                if self@.replicas.dom().contains(name) {
                    let k = choose|k: int| named(all, name, k);
                    assert(names@[k]@ == name);
                    assert(views(names@)[k] == name);
                }
                if views(names@).contains(name) {
                    let k = choose|k: int| 0 <= k < views(names@).len() && views(names@)[k] == name;
                    assert(names@[k]@ == all[k].0@);
                    assert(named(all, name, k));
                }
            }
            assert forall|i: int, j: int| 0 <= i < j < names@.len() implies text_le(
                #[trigger] views(names@)[i],
                #[trigger] views(names@)[j],
            ) && views(names@)[i] != views(names@)[j] by {
                assert(names@[i]@ == all[i].0@ && names@[j]@ == all[j].0@);
            }
        }
        names
    }

    /// Register a replica under a name that is not taken.
    pub fn add_replica(&mut self, name: &str, target: Target)
        requires
            old(self).well_formed(),
            !old(self)@.replicas.dom().contains(name@),
        ensures
            final(self).well_formed(),
            final(self)@ == (ServerView {
                replicas: old(self)@.replicas.insert(
                    name@,
                    ReplicaView { target: target@, synced: None, syncing: None },
                ),
                ..old(self)@
            }),
    {
        let ghost before = self.replicas@;
        let mut at: usize = 0;
        while at < self.replicas.len() && name_before(
            self.replicas[at].0.as_str(),
            name,
        )
            invariant
                at <= self.replicas@.len(),
                self.replicas@ == before,
                ordered(before),
                forall|k: int| 0 <= k < at ==> text_le((#[trigger] before[k]).0@, name@),
            decreases self.replicas@.len() - at,
        {
            at = at + 1;
        }
        let entry = (name.to_string(), ReplicaState { target, synced: None, syncing: None });
        self.replicas.insert(at, entry);
        proof {
            lemma_added(before, at as int, self.replicas@[at as int]);
            assert(self.replicas@ =~= before.insert(at as int, self.replicas@[at as int]));
        }
    }

    /// Mutate one replica's state: `f` takes the state and gives the new one
    /// and a result. Returns `None` if the replica does not exist.
    pub fn with_replica<R, F: FnOnce(ReplicaState<T>) -> (ReplicaState<T>, R)>(
        &mut self,
        name: &str,
        f: F,
    ) -> (result: Option<R>)
        requires
            old(self).well_formed(),
            forall|r: ReplicaState<T>| call_requires(f, (r,)),
        ensures
            final(self).well_formed(),
            match result {
                Some(ret) => mutated(old(self)@, final(self)@, name@, f, ret),
                None => !old(self)@.replicas.dom().contains(name@) && final(self)@ == old(self)@,
            },
    {
        match self.find(name) {
            None => None,
            Some(i) => {
                let ghost all = self.replicas@;
                let (key, before) = self.replicas.remove(i);
                let ghost was = before;
                let (after, ret) = f(before);
                let ghost now = after;
                self.replicas.insert(i, (key, after));
                proof {
                    let new = self.replicas@;
                    assert forall|k: int| 0 <= k < all.len() implies (#[trigger] all[k]).0@
                        == new[k].0@ && (k != i ==> all[k].1@ == new[k].1@) by {}
                    lemma_replaced(all, new, i as int);
                    assert(gives(f, was, now, ret));
                    assert(was@ == old(self)@.replicas[name@]);
                    assert(new[i as int].1 == now);
                    assert(self@ == (ServerView {
                        replicas: old(self)@.replicas.insert(name@, now@),
                        ..old(self)@
                    }));
                    assert(mutated(old(self)@, self@, name@, f, ret));
                }
                Some(ret)
            },
        }
    }

    /// Mark the in-flight sync of one replica, or that there is none. Returns
    /// whether the replica exists.
    pub fn set_syncing(&mut self, name: &str, syncing: Option<SyncingClock<T>>) -> (known: bool)
        requires
            old(self).well_formed(),
        ensures
            final(self).well_formed(),
            known == old(self)@.replicas.dom().contains(name@),
            final(self)@ == (ServerView {
                replicas: if known {
                    old(self)@.replicas.insert(
                        name@,
                        ReplicaView { syncing, ..old(self)@.replicas[name@] },
                    )
                } else {
                    old(self)@.replicas
                },
                ..old(self)@
            }),
    {
        match self.find(name) {
            None => false,
            Some(i) => {
                let ghost all = self.replicas@;
                let (key, before) = self.replicas.remove(i);
                let after = ReplicaState { target: before.target, synced: before.synced, syncing };
                self.replicas.insert(i, (key, after));
                proof {
                    let new = self.replicas@;
                    assert forall|k: int| 0 <= k < all.len() implies (#[trigger] all[k]).0@
                        == new[k].0@ && (k != i ==> all[k].1@ == new[k].1@) by {}
                    lemma_replaced(all, new, i as int);
                }
                true
            },
        }
    }

    /// Record a completed sync for one replica (clearing any in-flight
    /// marker) and wake every waiter (see
    /// [`ServerState::synced_since`]).
    pub fn record_synced(&mut self, name: &str, synced: SyncedClock<T>)
        requires
            old(self).well_formed(),
        ensures
            final(self).well_formed(),
            final(self)@ == (ServerView {
                replicas: if old(self)@.replicas.dom().contains(name@) {
                    old(self)@.replicas.insert(
                        name@,
                        ReplicaView {
                            synced: Some(synced@),
                            syncing: None,
                            ..old(self)@.replicas[name@]
                        },
                    )
                } else {
                    old(self)@.replicas
                },
                synced_generation: old(self)@.synced_generation.wrapping_add(1),
                ..old(self)@
            }),
    {
        if let Some(i) = self.find(name) {
            let ghost all = self.replicas@;
            let (key, before) = self.replicas.remove(i);
            let after = ReplicaState { target: before.target, synced: Some(synced), syncing: None };
            self.replicas.insert(i, (key, after));
            proof {
                let new = self.replicas@;
                assert forall|k: int| 0 <= k < all.len() implies (#[trigger] all[k]).0@ == new[k].0@
                    && (k != i ==> all[k].1@ == new[k].1@) by {}
                lemma_replaced(all, new, i as int);
            }
        }
        self.synced_generation = self.synced_generation.wrapping_add(1);
    }

    /// The count of completed syncs to compare with later (see
    /// [`ServerState::synced_since`]).
    pub fn subscribe_synced(&self) -> (generation: u64)
        ensures
            generation == self@.synced_generation,
    {
        self.synced_generation
    }

    /// Whether a sync has completed (for any replica: waiters re-check state,
    /// so spurious wake-ups are harmless) since the given count was taken.
    pub fn synced_since(&self, generation: u64) -> (yes: bool)
        ensures
            yes == (self@.synced_generation != generation),
    {
        self.synced_generation != generation
    }
}

impl<T: Copy> ServerState<T> {
    /// When the server process started.
    pub fn started_at(&self) -> (time: T)
        ensures
            time == self@.started_at,
    {
        self.started_at
    }

    /// A point-in-time copy of one replica's state.
    pub fn replica(&self, name: &str) -> (state: Option<ReplicaState<T>>)
        requires
            self.well_formed(),
        ensures
            match state {
                Some(r) => self@.replicas.dom().contains(name@) && r@ == self@.replicas[name@],
                None => !self@.replicas.dom().contains(name@),
            },
    {
        match self.find(name) {
            Some(i) => Some(self.replicas[i].1.copy()),
            None => None,
        }
    }
}

proof fn lemma_added<T>(
    all: Seq<(String, ReplicaState<T>)>,
    at: int,
    entry: (String, ReplicaState<T>),
)
    requires
        ordered(all),
        0 <= at <= all.len(),
        !by_name(all).dom().contains(entry.0@),
        forall|k: int| 0 <= k < at ==> text_le((#[trigger] all[k]).0@, entry.0@),
        at < all.len() ==> !text_le(all[at].0@, entry.0@),
    ensures
        ordered(all.insert(at, entry)),
        by_name(all.insert(at, entry)) == by_name(all).insert(entry.0@, entry.1@),
{
    let new = all.insert(at, entry);
    let name = entry.0@;
    assert forall|k: int| 0 <= k < all.len() implies (#[trigger] all[k]).0@ != name by {
        if all[k].0@ == name {
            assert(named(all, name, k));
        }
    }
    assert forall|k: int| at <= k < all.len() implies text_le(name, (#[trigger] all[k]).0@) by {
        text_order_is_total(all[at].0@, name);
        if k > at {
            assert(text_le(all[at].0@, all[k].0@));
            text_order_is_transitive(name, all[at].0@, all[k].0@);
        }
    }
    assert forall|i: int, j: int| 0 <= i < j < new.len() implies text_le(
        #[trigger] new[i].0@,
        #[trigger] new[j].0@,
    ) && new[i].0@ != new[j].0@ by {
        let a: int = if i < at {
            i
        } else {
            i - 1
        };
        let b: int = if j < at {
            j
        } else {
            j - 1
        };
        if i == at {
            assert(new[j] == all[b]);
        } else if j == at {
            assert(new[i] == all[a]);
        } else {
            assert(new[i] == all[a] && new[j] == all[b]);
            assert(text_le(all[a].0@, all[b].0@));
        }
    }
    let updated = by_name(all).insert(name, entry.1@);
    assert forall|n: Seq<char>| by_name(new).dom().contains(n) == updated.dom().contains(n) by {
        if by_name(new).dom().contains(n) && n != name {
            let k = choose|k: int| named(new, n, k);
            let m: int = if k < at {
                k
            } else {
                k - 1
            };
            assert(new[k] == all[m]);
            assert(named(all, n, m));
        }
        if by_name(all).dom().contains(n) {
            let m = choose|m: int| named(all, n, m);
            let k: int = if m < at {
                m
            } else {
                m + 1
            };
            assert(new[k] == all[m]);
            assert(named(new, n, k));
        }
        if n == name {
            assert(named(new, n, at));
        }
    }
    assert forall|n: Seq<char>| by_name(new).dom().contains(n) implies by_name(new)[n]
        == updated[n] by {
        let k = choose|k: int| named(new, n, k);
        lemma_by_name(new, k);
        if k != at {
            let m: int = if k < at {
                k
            } else {
                k - 1
            };
            assert(new[k] == all[m]);
            lemma_by_name(all, m);
        }
    }
    assert(by_name(new) =~= updated);
}

/// Each sequence number is larger than the ones before it.
pub proof fn sequence_numbers_increase<T>(before: ServerView<T>, after: ServerView<T>)
    requires
        before.next_seq < u64::MAX,
        after.next_seq == before.next_seq.wrapping_add(1),
    ensures
        after.next_seq > before.next_seq,
{
}

/// A mutation puts what the function makes of one replica's state in its
/// place and leaves everything else as it was.
pub proof fn mutations_touch_one_replica<
    T,
    R,
    F: FnOnce(ReplicaState<T>) -> (ReplicaState<T>, R),
>(before: ServerView<T>, after: ServerView<T>, name: Seq<char>, f: F, ret: R)
    requires
        mutated(before, after, name, f, ret),
    ensures
        before.replicas.dom().contains(name),
        after.replicas.dom() =~= before.replicas.dom(),
        forall|other: Seq<char>|
            other != name && before.replicas.dom().contains(other)
                ==> #[trigger] after.replicas[other] == before.replicas[other],
        after.pid == before.pid,
        after.started_at == before.started_at,
        after.next_seq == before.next_seq,
        after.synced_generation == before.synced_generation,
        exists|from: ReplicaState<T>, to: ReplicaState<T>|
            #![trigger gives(f, from, to, ret)]
            call_ensures(f, (from,), (to, ret)) && from@ == before.replicas[name]
                && after.replicas[name] == to@,
{
    let (from, to) = choose|from: ReplicaState<T>, to: ReplicaState<T>| #[trigger]
        gives(f, from, to, ret) && from@ == before.replicas[name] && after == (ServerView {
            replicas: before.replicas.insert(name, to@),
            ..before
        });
    assert(gives(f, from, to, ret));
}

/// A replica's state is kept as it is: its target, its completed sync and the
/// one in flight.
pub proof fn states_are_kept_as_they_are<T>(replica: ReplicaState<T>)
    ensures
        replica@.target == replica.target@,
        replica@.syncing == replica.syncing,
        replica@.synced is Some <==> replica.synced is Some,
        replica.synced matches Some(synced) ==> (replica@.synced matches Some(s) && s.seq
            == synced.seq && s.completed_at == synced.completed_at && s.clock == clock_json(
            synced.clock,
        )),
{
}

} // verus!
