use vstd::prelude::*;

use crate::clock::now_millis;
use crate::database::context::{db_type_for_path, db_type_of, DbType};

verus! {

/// A connection handed out by the pool: its identity in the pool, the kind
/// of database it serves, when it was handed out, and whether the pool had
/// to open it (`fresh`) rather than reuse an idle one.
#[derive(Debug, Clone, Copy, PartialEq, Eq, Structural)]
pub struct Lease {
    pub id: u64,
    pub db_type: DbType,
    pub last_used_time: u64,
    pub fresh: bool,
}

/// Why the pool refused to hand out a connection.
#[derive(Debug, Clone, Copy, PartialEq, Eq, Structural)]
pub enum PoolError {
    /// The pool stayed unused for longer than its timeout.
    TimedOut,
    /// No connection is idle and the connection to this database was
    /// dropped from the pool.
    Dropped,
    /// Every connection the pool may hold exists and none is idle.
    Exhausted,
}

/// Why a connection could not be given back to the pool.
#[derive(Debug, Clone, Copy, PartialEq, Eq, Structural)]
pub enum ConnectionPoolError {
    /// The pool holds no connection with this identity.
    ConnectionNotFound,
    /// The pool's queue has no room for the connection. The pool keeps room
    /// for every connection it holds, so giving one back never fails so.
    QueueFull,
}

/// The pool holds no connection with the identity given to `drop_connection`.
#[derive(Debug, Clone, Copy, PartialEq, Eq, Structural)]
pub struct PopError;

/// One connection held by the pool.
pub struct PooledConnection {
    pub id: u64,
    pub path: String,
    pub db_type: DbType,
    pub in_use: bool,
    pub last_used_time: u64,
}

/// The model of a pooled connection.
pub struct EntryView {
    pub id: u64,
    pub path: Seq<char>,
    pub db_type: DbType,
    pub in_use: bool,
    pub last_used_time: u64,
}

impl View for PooledConnection {
    type V = EntryView;

    open spec fn view(&self) -> EntryView {
        EntryView {
            id: self.id,
            path: self.path@,
            db_type: self.db_type,
            in_use: self.in_use,
            last_used_time: self.last_used_time,
        }
    }
}

/// The model of a pool: its limits, when it was last used, the identity the
/// next opened connection gets, the connections it holds in queue order, and
/// the databases whose connection was dropped.
pub struct PoolView {
    pub max_size: nat,
    pub timeout: nat,
    pub last_used_time: nat,
    pub next_id: nat,
    pub entries: Seq<EntryView>,
    pub dropped: Seq<Seq<char>>,
}

/// The connection is idle: held by the pool and not handed out.
pub open spec fn is_idle(e: EntryView) -> bool {
    !e.in_use
}

/// `k` is the first idle connection in queue order.
pub open spec fn first_idle(entries: Seq<EntryView>, k: int) -> bool {
    &&& 0 <= k < entries.len()
    &&& is_idle(entries[k])
    &&& forall|j: int| 0 <= j < k ==> !is_idle(#[trigger] entries[j])
}

/// Some connection is idle.
pub open spec fn has_idle(entries: Seq<EntryView>) -> bool {
    exists|k: int| 0 <= k < entries.len() && is_idle(#[trigger] entries[k])
}

/// `k` is the first connection in queue order with identity `id`.
pub open spec fn first_with_id(entries: Seq<EntryView>, id: u64, k: int) -> bool {
    &&& 0 <= k < entries.len()
    &&& entries[k].id == id
    &&& forall|j: int| 0 <= j < k ==> (#[trigger] entries[j]).id != id
}

/// The pool holds a connection with identity `id`.
pub open spec fn holds_id(entries: Seq<EntryView>, id: u64) -> bool {
    exists|k: int| 0 <= k < entries.len() && (#[trigger] entries[k]).id == id
}

impl PoolView {
    /// The pool's invariant: it holds at most `max_size` connections, each
    /// with its own identity below `next_id`, each tagged with the kind of
    /// its database.
    pub open spec fn wf(self) -> bool {
        &&& self.entries.len() <= self.max_size
        &&& self.max_size <= usize::MAX
        &&& self.timeout <= u64::MAX
        &&& self.last_used_time <= u64::MAX
        &&& self.next_id <= u64::MAX
        &&& forall|k: int| 0 <= k < self.entries.len() ==> (#[trigger] self.entries[k]).id < self.next_id
        &&& forall|i: int, j: int|
            0 <= i < j < self.entries.len() ==> (#[trigger] self.entries[i]).id != (#[trigger] self.entries[j]).id
        &&& forall|k: int|
            0 <= k < self.entries.len() ==> (#[trigger] self.entries[k]).db_type == db_type_of(self.entries[k].path)
    }

    /// More than `timeout` milliseconds passed between the pool's last use
    /// and `now`.
    pub open spec fn timed_out(self, now: int) -> bool {
        now > self.last_used_time + self.timeout
    }

    /// The connection to `path` was dropped from the pool.
    pub open spec fn is_dropped(self, path: Seq<char>) -> bool {
        self.dropped.contains(path)
    }

    /// What asking for a connection to `path` at time `now` answers, and the
    /// pool afterwards: refused when the pool timed out; else the first idle
    /// connection in queue order is handed out again, whatever database it
    /// serves; else, with none idle, refused where a connection to `path` was
    /// dropped; else a new one to `path` is opened while the pool is below
    /// `max_size` (and identities are left); else refused as exhausted.
    pub open spec fn lease_outcome(self, path: Seq<char>, now: u64) -> (Result<Lease, PoolError>, PoolView) {
        if self.timed_out(now as int) {
            (Err(PoolError::TimedOut), self)
        } else if has_idle(self.entries) {
            let k = choose|k: int| first_idle(self.entries, k);
            let e = self.entries[k];
            let e2 = EntryView { in_use: true, last_used_time: now, ..e };
            (
                Ok(Lease { id: e.id, db_type: e.db_type, last_used_time: now, fresh: false }),
                PoolView { last_used_time: now as nat, entries: self.entries.update(k, e2), ..self },
            )
        } else if self.is_dropped(path) {
            (Err(PoolError::Dropped), self)
        } else if self.entries.len() < self.max_size && self.next_id < u64::MAX {
            let e = EntryView {
                id: self.next_id as u64,
                path,
                db_type: db_type_of(path),
                in_use: true,
                last_used_time: now,
            };
            (
                Ok(Lease { id: e.id, db_type: e.db_type, last_used_time: now, fresh: true }),
                PoolView {
                    last_used_time: now as nat,
                    next_id: self.next_id + 1,
                    entries: self.entries.push(e),
                    ..self
                },
            )
        } else {
            (Err(PoolError::Exhausted), self)
        }
    }

    /// What giving back connection `id` answers, and the pool afterwards:
    /// the connection becomes idle (an idle one stays idle); an unknown
    /// connection is refused and leaves the pool as it was.
    pub open spec fn return_outcome(self, id: u64) -> (Result<(), ConnectionPoolError>, PoolView) {
        if !holds_id(self.entries, id) {
            (Err(ConnectionPoolError::ConnectionNotFound), self)
        } else {
            let k = choose|k: int| first_with_id(self.entries, id, k);
            let e = self.entries[k];
            (Ok(()), PoolView { entries: self.entries.update(k, EntryView { in_use: false, ..e }), ..self })
        }
    }

    /// What dropping connection `id` answers, and the pool afterwards: the
    /// connection leaves the queue and its database is recorded as dropped;
    /// an unknown connection is refused and leaves the pool as it was.
    pub open spec fn drop_outcome(self, id: u64) -> (Result<(), PopError>, PoolView) {
        if !holds_id(self.entries, id) {
            (Err(PopError), self)
        } else {
            let k = choose|k: int| first_with_id(self.entries, id, k);
            (
                Ok(()),
                PoolView {
                    entries: self.entries.remove(k),
                    dropped: self.dropped.push(self.entries[k].path),
                    ..self
                },
            )
        }
    }
}

/// A bounded pool of database connections. Connections are identified by a
/// number; the database handles themselves are kept by the caller under the
/// same number.
pub struct ConnectionPool {
    max_size: usize,
    timeout: u64,
    last_used_time: u64,
    next_id: u64,
    queue: Vec<PooledConnection>,
    dropped: Vec<String>,
}

impl View for ConnectionPool {
    type V = PoolView;

    closed spec fn view(&self) -> PoolView {
        PoolView {
            max_size: self.max_size as nat,
            timeout: self.timeout as nat,
            last_used_time: self.last_used_time as nat,
            next_id: self.next_id as nat,
            entries: self.queue@.map_values(|e: PooledConnection| e@),
            dropped: self.dropped@.map_values(|s: String| s@),
        }
    }
}

/// The first idle connection, if any.
fn find_idle(queue: &Vec<PooledConnection>) -> (r: Option<usize>)
    ensures
        match r {
            Some(k) => first_idle(queue@.map_values(|e: PooledConnection| e@), k as int),
            None => !has_idle(queue@.map_values(|e: PooledConnection| e@)),
        },
{
    let ghost entries = queue@.map_values(|e: PooledConnection| e@);
    let mut k: usize = 0;
    while k < queue.len()
        invariant
            k <= queue.len(),
            entries == queue@.map_values(|e: PooledConnection| e@),
            forall|j: int| 0 <= j < k ==> !is_idle(#[trigger] entries[j]),
        decreases queue.len() - k,
    {
        if !queue[k].in_use {
            assert(is_idle(entries[k as int]));
            return Some(k);
        }
        assert(!is_idle(entries[k as int]));
        k += 1;
    }
    None
}

/// The first connection with identity `id`, if any.
fn find_id(queue: &Vec<PooledConnection>, id: u64) -> (r: Option<usize>)
    ensures
        match r {
            Some(k) => first_with_id(queue@.map_values(|e: PooledConnection| e@), id, k as int),
            None => !holds_id(queue@.map_values(|e: PooledConnection| e@), id),
        },
{
    let ghost entries = queue@.map_values(|e: PooledConnection| e@);
    let mut k: usize = 0;
    while k < queue.len()
        invariant
            k <= queue.len(),
            entries == queue@.map_values(|e: PooledConnection| e@),
            forall|j: int| 0 <= j < k ==> (#[trigger] entries[j]).id != id,
        decreases queue.len() - k,
    {
        if queue[k].id == id {
            assert(entries[k as int].id == id);
            return Some(k);
        }
        assert(entries[k as int].id != id);
        k += 1;
    }
    None
}

/// Whether `paths` holds `path`.
fn holds_path(paths: &Vec<String>, path: &String) -> (r: bool)
    ensures
        r == paths@.map_values(|s: String| s@).contains(path@),
{
    let ghost views = paths@.map_values(|s: String| s@);
    let mut i: usize = 0;
    while i < paths.len()
        invariant
            i <= paths.len(),
            views == paths@.map_values(|s: String| s@),
            forall|j: int| 0 <= j < i ==> #[trigger] views[j] != path@,
        decreases paths.len() - i,
    {
        if paths[i] == *path {
            assert(views[i as int] == path@);
            return true;
        }
        i += 1;
    }
    false
}

/// Where some connection is idle, a first one in queue order exists.
proof fn lemma_first_idle_exists(entries: Seq<EntryView>, k: int)
    requires
        0 <= k < entries.len(),
        is_idle(entries[k]),
    ensures
        exists|m: int| first_idle(entries, m),
    decreases k,
{
    if forall|j: int| 0 <= j < k ==> !is_idle(#[trigger] entries[j]) {
        assert(first_idle(entries, k));
    } else {
        let j = choose|j: int| 0 <= j < k && is_idle(#[trigger] entries[j]);
        lemma_first_idle_exists(entries, j);
    }
}

/// Where the pool holds a connection `id`, a first one in queue order exists.
proof fn lemma_first_id_exists(entries: Seq<EntryView>, id: u64, k: int)
    requires
        0 <= k < entries.len(),
        entries[k].id == id,
    ensures
        exists|m: int| first_with_id(entries, id, m),
    decreases k,
{
    if forall|j: int| 0 <= j < k ==> (#[trigger] entries[j]).id != id {
        assert(first_with_id(entries, id, k));
    } else {
        let j = choose|j: int| 0 <= j < k && (#[trigger] entries[j]).id == id;
        lemma_first_id_exists(entries, id, j);
    }
}

/// The first idle connection is unique.
proof fn lemma_first_idle_unique(entries: Seq<EntryView>, k1: int, k2: int)
    requires
        first_idle(entries, k1),
        first_idle(entries, k2),
    ensures
        k1 == k2,
{
    if k1 < k2 {
        assert(!is_idle(entries[k1]));
    } else if k2 < k1 {
        assert(!is_idle(entries[k2]));
    }
}

/// The first connection with an identity is unique.
proof fn lemma_first_id_unique(entries: Seq<EntryView>, id: u64, k1: int, k2: int)
    requires
        first_with_id(entries, id, k1),
        first_with_id(entries, id, k2),
    ensures
        k1 == k2,
{
    if k1 < k2 {
        assert(entries[k1].id != id);
    } else if k2 < k1 {
        assert(entries[k2].id != id);
    }
}

impl ConnectionPool {
    /// The pool's invariant, kept by every value of the type.
    #[verifier::type_invariant]
    closed spec fn inv(self) -> bool {
        self@.wf()
    }

    /// The pool's invariant: its model is well formed.
    pub open spec fn wf(&self) -> bool {
        self@.wf()
    }

    /// An empty pool holding at most `max_size` connections that times out
    /// after `timeout` milliseconds without use, created at time `now`.
    pub fn new_at(max_size: usize, timeout: u64, now: u64) -> (pool: Self)
        ensures
            pool.wf(),
            pool@.max_size == max_size,
            pool@.timeout == timeout,
            pool@.last_used_time == now,
            pool@.next_id == 0,
            pool@.entries == Seq::<EntryView>::empty(),
            pool@.dropped == Seq::<Seq<char>>::empty(),
    {
        let pool = ConnectionPool {
            max_size,
            timeout,
            last_used_time: now,
            next_id: 0,
            queue: Vec::new(),
            dropped: Vec::new(),
        };
        proof {
            assert(pool@.entries =~= Seq::<EntryView>::empty());
            assert(pool@.dropped =~= Seq::<Seq<char>>::empty());
        }
        pool
    }

    /// An empty pool holding at most `max_size` connections that times out
    /// after `timeout` milliseconds without use, created now.
    pub fn new(max_size: usize, timeout: u64) -> (pool: Self)
        ensures
            pool.wf(),
            pool@.max_size == max_size,
            pool@.timeout == timeout,
            pool@.next_id == 0,
            pool@.entries == Seq::<EntryView>::empty(),
            pool@.dropped == Seq::<Seq<char>>::empty(),
    {
        let now = now_millis();
        Self::new_at(max_size, timeout, now)
    }

    /// The most connections the pool holds.
    pub fn max_size(&self) -> (n: usize)
        ensures
            n == self@.max_size,
    {
        self.max_size
    }

    /// Milliseconds without use after which the pool refuses to hand out
    /// connections.
    pub fn timeout(&self) -> (t: u64)
        ensures
            t == self@.timeout,
    {
        self.timeout
    }

    /// When the pool last handed out a connection.
    pub fn last_used_time(&self) -> (t: u64)
        ensures
            t == self@.last_used_time,
    {
        self.last_used_time
    }

    /// How many connections the pool holds, in use or idle.
    pub fn len(&self) -> (n: usize)
        ensures
            n == self@.entries.len(),
    {
        self.queue.len()
    }

    /// Whether the pool holds connection `id`.
    pub fn contains(&self, id: u64) -> (b: bool)
        ensures
            b == holds_id(self@.entries, id),
    {
        find_id(&self.queue, id).is_some()
    }

    /// Whether connection `id` is held by the pool and handed out.
    pub fn is_in_use(&self, id: u64) -> (b: bool)
        ensures
            b == (exists|k: int| first_with_id(self@.entries, id, k) && self@.entries[k].in_use),
    {
        match find_id(&self.queue, id) {
            Some(k) => {
                proof {
                    assert forall|k2: int| first_with_id(self@.entries, id, k2) implies k2 == k by {
                        lemma_first_id_unique(self@.entries, id, k as int, k2);
                    }
                }
                self.queue[k].in_use
            },
            None => false,
        }
    }

    /// Hands out a connection to the database at `path` at time `now`, as
    /// `lease_outcome` says. A fresh lease tells the caller to open the
    /// database under the lease's identity.
    pub fn get_connection_at(&mut self, path: &str, now: u64) -> (res: Result<Lease, PoolError>)
        ensures
            final(self).wf(),
            (res, final(self)@) == old(self)@.lease_outcome(path@, now),
    {
        proof {
            use_type_invariant(&*self);
        }
        let ghost pre = self@;
        proof {
            lemma_lease_outcome_wf(pre, path@, now);
        }
        if now > self.last_used_time && now - self.last_used_time > self.timeout {
            return Err(PoolError::TimedOut);
        }
        match find_idle(&self.queue) {
            Some(k) => {
                let mut queue: Vec<PooledConnection> = Vec::new();
                std::mem::swap(&mut queue, &mut self.queue);
                let id = queue[k].id;
                let db_type = queue[k].db_type;
                let e = PooledConnection {
                    id,
                    path: queue[k].path.clone(),
                    db_type,
                    in_use: true,
                    last_used_time: now,
                };
                queue.set(k, e);
                self.last_used_time = now;
                proof {
                    assert forall|k2: int| first_idle(pre.entries, k2) implies k2 == k by {
                        lemma_first_idle_unique(pre.entries, k as int, k2);
                    }
                    assert(queue@.map_values(|e: PooledConnection| e@) =~= pre.lease_outcome(
                        path@,
                        now,
                    ).1.entries);
                }
                self.queue = queue;
                Ok(Lease { id, db_type, last_used_time: now, fresh: false })
            },
            None => {
                let p = String::from_str(path);
                if holds_path(&self.dropped, &p) {
                    return Err(PoolError::Dropped);
                }
                if self.queue.len() < self.max_size && self.next_id < 0xffff_ffff_ffff_ffffu64 {
                    let id = self.next_id;
                    let db_type = db_type_for_path(path);
                    let mut queue: Vec<PooledConnection> = Vec::new();
                    std::mem::swap(&mut queue, &mut self.queue);
                    queue.push(PooledConnection { id, path: p, db_type, in_use: true, last_used_time: now });
                    self.next_id = id + 1;
                    self.last_used_time = now;
                    proof {
                        assert(queue@.map_values(|e: PooledConnection| e@) =~= pre.lease_outcome(
                            path@,
                            now,
                        ).1.entries);
                    }
                    self.queue = queue;
                    Ok(Lease { id, db_type, last_used_time: now, fresh: true })
                } else {
                    Err(PoolError::Exhausted)
                }
            },
        }
    }

    /// Hands out a connection to the database at `path`, reading the time
    /// from the system clock: the outcome is `lease_outcome` at the time
    /// that was read.
    pub fn get_connection(&mut self, path: &str) -> (res: Result<Lease, PoolError>)
        ensures
            final(self).wf(),
            exists|now: u64| (res, final(self)@) == #[trigger] old(self)@.lease_outcome(path@, now),
    {
        let now = now_millis();
        self.get_connection_at(path, now)
    }

    /// Gives connection `id` back to the pool, as `return_outcome` says.
    pub fn return_connection(&mut self, id: u64) -> (res: Result<(), ConnectionPoolError>)
        ensures
            final(self).wf(),
            (res, final(self)@) == old(self)@.return_outcome(id),
    {
        proof {
            use_type_invariant(&*self);
        }
        let ghost pre = self@;
        proof {
            lemma_return_outcome_wf(pre, id);
        }
        match find_id(&self.queue, id) {
            Some(k) => {
                proof {
                    assert forall|k2: int| first_with_id(pre.entries, id, k2) implies k2 == k by {
                        lemma_first_id_unique(pre.entries, id, k as int, k2);
                    }
                }
                let mut queue: Vec<PooledConnection> = Vec::new();
                std::mem::swap(&mut queue, &mut self.queue);
                let e = PooledConnection {
                    id,
                    path: queue[k].path.clone(),
                    db_type: queue[k].db_type,
                    in_use: false,
                    last_used_time: queue[k].last_used_time,
                };
                queue.set(k, e);
                proof {
                    assert(queue@.map_values(|e: PooledConnection| e@) =~= pre.return_outcome(id).1.entries);
                }
                self.queue = queue;
                Ok(())
            },
            None => Err(ConnectionPoolError::ConnectionNotFound),
        }
    }

    /// Removes connection `id` from the pool, as `drop_outcome` says. The
    /// caller closes the database handle kept under that identity.
    pub fn drop_connection(&mut self, id: u64) -> (res: Result<(), PopError>)
        ensures
            final(self).wf(),
            (res, final(self)@) == old(self)@.drop_outcome(id),
    {
        proof {
            use_type_invariant(&*self);
        }
        let ghost pre = self@;
        proof {
            lemma_drop_outcome_wf(pre, id);
        }
        match find_id(&self.queue, id) {
            Some(k) => {
                proof {
                    assert forall|k2: int| first_with_id(pre.entries, id, k2) implies k2 == k by {
                        lemma_first_id_unique(pre.entries, id, k as int, k2);
                    }
                }
                let mut queue: Vec<PooledConnection> = Vec::new();
                std::mem::swap(&mut queue, &mut self.queue);
                let mut dropped: Vec<String> = Vec::new();
                std::mem::swap(&mut dropped, &mut self.dropped);
                let e = queue.remove(k);
                dropped.push(e.path);
                proof {
                    assert(queue@.map_values(|e: PooledConnection| e@) =~= pre.drop_outcome(id).1.entries);
                    assert(dropped@.map_values(|s: String| s@) =~= pre.drop_outcome(id).1.dropped);
                }
                self.dropped = dropped;
                self.queue = queue;
                Ok(())
            },
            None => Err(PopError),
        }
    }
}

/// Handing out a connection keeps the pool's invariant.
pub proof fn lemma_lease_outcome_wf(p: PoolView, path: Seq<char>, now: u64)
    requires
        p.wf(),
    ensures
        p.lease_outcome(path, now).1.wf(),
{
    let q = p.lease_outcome(path, now).1;
    if !p.timed_out(now as int) && has_idle(p.entries) {
        let w = choose|w: int| 0 <= w < p.entries.len() && is_idle(#[trigger] p.entries[w]);
        lemma_first_idle_exists(p.entries, w);
        let k = choose|k: int| first_idle(p.entries, k);
        assert forall|i: int, j: int| 0 <= i < j < q.entries.len() implies (#[trigger] q.entries[i]).id != (#[trigger] q.entries[j]).id by {
            assert(q.entries[i].id == p.entries[i].id);
            assert(q.entries[j].id == p.entries[j].id);
        }
        assert forall|i: int| 0 <= i < q.entries.len() implies (#[trigger] q.entries[i]).id < q.next_id by {
            assert(q.entries[i].id == p.entries[i].id);
        }
        assert forall|i: int| 0 <= i < q.entries.len() implies (#[trigger] q.entries[i]).db_type == db_type_of(q.entries[i].path) by {
            assert(q.entries[i].db_type == p.entries[i].db_type);
        }
    }
}

/// Giving a connection back keeps the pool's invariant.
pub proof fn lemma_return_outcome_wf(p: PoolView, id: u64)
    requires
        p.wf(),
    ensures
        p.return_outcome(id).1.wf(),
{
    let q = p.return_outcome(id).1;
    if holds_id(p.entries, id) {
        let w = choose|w: int| 0 <= w < p.entries.len() && (#[trigger] p.entries[w]).id == id;
        lemma_first_id_exists(p.entries, id, w);
        assert forall|i: int, j: int| 0 <= i < j < q.entries.len() implies (#[trigger] q.entries[i]).id != (#[trigger] q.entries[j]).id by {
            assert(q.entries[i].id == p.entries[i].id);
            assert(q.entries[j].id == p.entries[j].id);
        }
        assert forall|i: int| 0 <= i < q.entries.len() implies (#[trigger] q.entries[i]).id < q.next_id by {
            assert(q.entries[i].id == p.entries[i].id);
        }
        assert forall|i: int| 0 <= i < q.entries.len() implies (#[trigger] q.entries[i]).db_type == db_type_of(q.entries[i].path) by {
            assert(q.entries[i].db_type == p.entries[i].db_type);
            assert(q.entries[i].path == p.entries[i].path);
        }
    }
}

/// Dropping a connection keeps the pool's invariant.
pub proof fn lemma_drop_outcome_wf(p: PoolView, id: u64)
    requires
        p.wf(),
    ensures
        p.drop_outcome(id).1.wf(),
{
    let q = p.drop_outcome(id).1;
    if holds_id(p.entries, id) {
        let w = choose|w: int| 0 <= w < p.entries.len() && (#[trigger] p.entries[w]).id == id;
        lemma_first_id_exists(p.entries, id, w);
        let k = choose|k: int| first_with_id(p.entries, id, k);
        assert forall|i: int, j: int| 0 <= i < j < q.entries.len() implies (#[trigger] q.entries[i]).id != (#[trigger] q.entries[j]).id by {
            let pi = if i < k { i } else { i + 1 };
            let pj = if j < k { j } else { j + 1 };
            assert(q.entries[i] == p.entries[pi]);
            assert(q.entries[j] == p.entries[pj]);
        }
        assert forall|i: int| 0 <= i < q.entries.len() implies (#[trigger] q.entries[i]).id < q.next_id by {
            let pi = if i < k { i } else { i + 1 };
            assert(q.entries[i] == p.entries[pi]);
        }
        assert forall|i: int| 0 <= i < q.entries.len() implies (#[trigger] q.entries[i]).db_type == db_type_of(q.entries[i].path) by {
            let pi = if i < k { i } else { i + 1 };
            assert(q.entries[i] == p.entries[pi]);
        }
    }
}


/// The position of the connection a successful request handed out: the
/// first idle connection, or the newly opened last one.
pub open spec fn leased_index(p: PoolView) -> int {
    if has_idle(p.entries) {
        choose|k: int| first_idle(p.entries, k)
    } else {
        p.entries.len() as int
    }
}

/// After a successful request the connection handed out sits at
/// `leased_index`, is in use, and is the first (and only) connection with
/// its identity.
proof fn lemma_leased_entry(p: PoolView, path: Seq<char>, now: u64)
    requires
        p.wf(),
        p.lease_outcome(path, now).0 is Ok,
    ensures
        ({
            let (r, q) = p.lease_outcome(path, now);
            let k = leased_index(p);
            &&& 0 <= k < q.entries.len()
            &&& q.entries[k].id == r->Ok_0.id
            &&& q.entries[k].in_use
            &&& first_with_id(q.entries, r->Ok_0.id, k)
            &&& q.last_used_time == now
            &&& q.dropped == p.dropped
            &&& q.wf()
        }),
{
    lemma_lease_outcome_wf(p, path, now);
    let (r, q) = p.lease_outcome(path, now);
    if has_idle(p.entries) {
        let w = choose|w: int| 0 <= w < p.entries.len() && is_idle(#[trigger] p.entries[w]);
        lemma_first_idle_exists(p.entries, w);
    }
    let k = leased_index(p);
    assert forall|j: int| 0 <= j < k implies (#[trigger] q.entries[j]).id != r->Ok_0.id by {
        assert(q.entries[j] == p.entries[j]);
    }
}

/// A connection the pool hands out can be given back.
pub proof fn lemma_lease_then_return(p: PoolView, path: Seq<char>, now: u64)
    requires
        p.wf(),
        p.lease_outcome(path, now).0 is Ok,
    ensures
        ({
            let (r, q) = p.lease_outcome(path, now);
            q.return_outcome(r->Ok_0.id).0 == Ok::<(), ConnectionPoolError>(())
        }),
{
    lemma_leased_entry(p, path, now);
    let (r, q) = p.lease_outcome(path, now);
    let k = leased_index(p);
    assert forall|k2: int| first_with_id(q.entries, r->Ok_0.id, k2) implies k2 == k by {
        lemma_first_id_unique(q.entries, r->Ok_0.id, k, k2);
    }
}

/// A connection given back is handed out again: until the pool times out,
/// the next request, for any database, reuses an idle connection and opens
/// none; where no other connection was idle, it is the connection given
/// back.
pub proof fn lemma_return_then_reuse(p: PoolView, path: Seq<char>, now: u64, path2: Seq<char>, later: u64)
    requires
        p.wf(),
        p.lease_outcome(path, now).0 is Ok,
        later <= now + p.timeout,
    ensures
        ({
            let (r, q) = p.lease_outcome(path, now);
            let q2 = q.return_outcome(r->Ok_0.id).1;
            let (r2, q3) = q2.lease_outcome(path2, later);
            &&& r2 is Ok
            &&& !r2->Ok_0.fresh
            &&& !has_idle(q.entries) ==> r2->Ok_0.id == r->Ok_0.id
            &&& q3.entries.len() == q2.entries.len()
            &&& q2.entries.len() == q.entries.len()
        }),
{
    lemma_leased_entry(p, path, now);
    let (r, q) = p.lease_outcome(path, now);
    let k = leased_index(p);
    assert forall|k2: int| first_with_id(q.entries, r->Ok_0.id, k2) implies k2 == k by {
        lemma_first_id_unique(q.entries, r->Ok_0.id, k, k2);
    }
    let q2 = q.return_outcome(r->Ok_0.id).1;
    assert(is_idle(q2.entries[k]));
    assert(has_idle(q2.entries));
    lemma_first_idle_exists(q2.entries, k);
    if !has_idle(q.entries) {
        assert forall|j: int| 0 <= j < k implies !is_idle(#[trigger] q2.entries[j]) by {
            assert(q2.entries[j] == q.entries[j]);
            if is_idle(q.entries[j]) {
                assert(has_idle(q.entries));
            }
        }
        assert(first_idle(q2.entries, k));
        assert forall|k2: int| first_idle(q2.entries, k2) implies k2 == k by {
            lemma_first_idle_unique(q2.entries, k, k2);
        }
    }
}

/// Giving back a connection that is already idle is accepted and changes
/// nothing.
pub proof fn lemma_return_twice_harmless(p: PoolView, id: u64)
    requires
        p.wf(),
        p.return_outcome(id).0 is Ok,
    ensures
        p.return_outcome(id).1.return_outcome(id) == (Ok::<(), ConnectionPoolError>(()), p.return_outcome(id).1),
{
    let w = choose|w: int| 0 <= w < p.entries.len() && (#[trigger] p.entries[w]).id == id;
    lemma_first_id_exists(p.entries, id, w);
    let k = choose|k: int| first_with_id(p.entries, id, k);
    let q = p.return_outcome(id).1;
    assert(q.entries[k].id == id);
    assert forall|j: int| 0 <= j < k implies (#[trigger] q.entries[j]).id != id by {
        assert(q.entries[j] == p.entries[j]);
    }
    assert(first_with_id(q.entries, id, k));
    assert forall|k2: int| first_with_id(q.entries, id, k2) implies k2 == k by {
        lemma_first_id_unique(q.entries, id, k, k2);
    }
    let q2 = q.return_outcome(id).1;
    assert(q2.entries =~= q.entries);
}

/// Once a connection is dropped, a request for its database is refused
/// (as timed out where the pool has timed out, else as dropped) whenever no
/// connection is idle to be handed out instead.
pub proof fn lemma_drop_then_refused(p: PoolView, k: int, now: u64)
    requires
        p.wf(),
        0 <= k < p.entries.len(),
    ensures
        ({
            let (r, q) = p.drop_outcome(p.entries[k].id);
            &&& r == Ok::<(), PopError>(())
            &&& !has_idle(q.entries) ==> q.lease_outcome(p.entries[k].path, now) == (
                if p.timed_out(now as int) {
                    Err::<Lease, PoolError>(PoolError::TimedOut)
                } else {
                    Err::<Lease, PoolError>(PoolError::Dropped)
                },
                q,
            )
        }),
{
    let id = p.entries[k].id;
    lemma_first_id_exists(p.entries, id, k);
    let k1 = choose|k1: int| first_with_id(p.entries, id, k1);
    if k1 != k {
        assert(p.entries[k1].id == p.entries[k].id);
    }
    let q = p.drop_outcome(id).1;
    assert(q.dropped[q.dropped.len() - 1] == p.entries[k].path);
    assert(q.is_dropped(p.entries[k].path));
}

/// A pool holding `max_size` connections, none of them idle, refuses the
/// request as exhausted (unless it timed out or the
/// database's connection was dropped) and stays as it was.
pub proof fn lemma_full_pool_refuses(p: PoolView, path: Seq<char>, now: u64)
    requires
        p.wf(),
        !p.timed_out(now as int),
        !p.is_dropped(path),
        p.entries.len() == p.max_size,
        !has_idle(p.entries),
    ensures
        p.lease_outcome(path, now) == (Err::<Lease, PoolError>(PoolError::Exhausted), p),
{
}

/// A pool left unused for longer than its timeout refuses every request
/// and stays as it was.
pub proof fn lemma_timed_out_refuses(p: PoolView, path: Seq<char>, now: u64)
    requires
        p.timed_out(now as int),
    ensures
        p.lease_outcome(path, now) == (Err::<Lease, PoolError>(PoolError::TimedOut), p),
{
}

/// The pool never hands out a connection that is in use: the connection
/// handed out was idle (or newly opened, with an identity the pool did not
/// hold), and afterwards it is in use.
pub proof fn lemma_lease_exclusive(p: PoolView, path: Seq<char>, now: u64)
    requires
        p.wf(),
        p.lease_outcome(path, now).0 is Ok,
    ensures
        ({
            let (r, q) = p.lease_outcome(path, now);
            let l = r->Ok_0;
            &&& forall|j: int| 0 <= j < p.entries.len() && (#[trigger] p.entries[j]).id == l.id ==> !p.entries[j].in_use
            &&& l.fresh <==> !holds_id(p.entries, l.id)
            &&& exists|j: int| first_with_id(q.entries, l.id, j) && q.entries[j].in_use
        }),
{
    lemma_leased_entry(p, path, now);
    let (r, q) = p.lease_outcome(path, now);
    let k = leased_index(p);
    let l = r->Ok_0;
    if has_idle(p.entries) {
        let w = choose|w: int| 0 <= w < p.entries.len() && is_idle(#[trigger] p.entries[w]);
        lemma_first_idle_exists(p.entries, w);
        assert(first_idle(p.entries, k));
        assert(p.entries[k].id == l.id);
        assert forall|j: int| 0 <= j < p.entries.len() && (#[trigger] p.entries[j]).id == l.id implies !p.entries[j].in_use by {
            if j < k {
                assert(p.entries[j].id != p.entries[k].id);
            } else if k < j {
                assert(p.entries[k].id != p.entries[j].id);
            }
        }
        assert(holds_id(p.entries, l.id));
    } else {
        assert forall|j: int| 0 <= j < p.entries.len() implies (#[trigger] p.entries[j]).id != l.id by {
        }
    }
}

/// Every request, return and drop keeps the pool's invariant, so the pool
/// never holds more than `max_size` connections and never two with one
/// identity.
pub proof fn lemma_pool_invariant_kept(p: PoolView, path: Seq<char>, now: u64, id: u64)
    requires
        p.wf(),
    ensures
        p.lease_outcome(path, now).1.wf(),
        p.lease_outcome(path, now).1.entries.len() <= p.max_size,
        p.return_outcome(id).1.wf(),
        p.drop_outcome(id).1.wf(),
{
    lemma_lease_outcome_wf(p, path, now);
    lemma_return_outcome_wf(p, id);
    lemma_drop_outcome_wf(p, id);
}


/// A refused request leaves the pool as it was; a granted one opens a
/// connection exactly when the lease is fresh, and marks the pool used at
/// the request's time.
pub proof fn lemma_lease_effect(p: PoolView, path: Seq<char>, now: u64)
    requires
        p.wf(),
    ensures
        ({
            let (r, q) = p.lease_outcome(path, now);
            &&& r is Err ==> q == p
            &&& r matches Ok(l) ==> {
                &&& q.entries.len() == p.entries.len() + (if l.fresh { 1int } else { 0int })
                &&& q.last_used_time == now
                &&& l.last_used_time == now
                &&& l.fresh ==> l.db_type == db_type_of(path)
                &&& q.max_size == p.max_size
                &&& q.dropped == p.dropped
            }
        }),
{
    if p.lease_outcome(path, now).0 is Ok {
        lemma_leased_entry(p, path, now);
        lemma_lease_outcome_wf(p, path, now);
        let (r, q) = p.lease_outcome(path, now);
        let k = leased_index(p);
        if has_idle(p.entries) {
            let w = choose|w: int| 0 <= w < p.entries.len() && is_idle(#[trigger] p.entries[w]);
            lemma_first_idle_exists(p.entries, w);
        }
        assert(q.entries[k].db_type == db_type_of(q.entries[k].path));
        assert(r->Ok_0.db_type == q.entries[k].db_type);
        if r->Ok_0.fresh {
            assert(q.entries.len() == p.entries.len() + 1);
        } else {
            assert(q.entries.len() == p.entries.len());
        }
    }
}


/// Whether a request may open a connection depends on the connections the
/// pool holds now, not on how many it opened before: a pool that has not
/// timed out, holds no idle connection and fewer than `max_size`
/// connections, and whose connection to `path` was not dropped, opens a new
/// connection to `path` (while identities are left) and adds it to the end
/// of its queue.
pub proof fn lemma_open_when_room(p: PoolView, path: Seq<char>, now: u64)
    requires
        p.wf(),
        !p.timed_out(now as int),
        !has_idle(p.entries),
        !p.is_dropped(path),
        p.entries.len() < p.max_size,
        p.next_id < u64::MAX,
    ensures
        ({
            let (r, q) = p.lease_outcome(path, now);
            &&& r == Ok::<Lease, PoolError>(
                Lease { id: p.next_id as u64, db_type: db_type_of(path), last_used_time: now, fresh: true },
            )
            &&& q.entries.len() == p.entries.len() + 1
            &&& q.entries.subrange(0, p.entries.len() as int) == p.entries
            &&& q.entries[p.entries.len() as int].id == p.next_id
            &&& q.entries[p.entries.len() as int].path == path
            &&& q.entries[p.entries.len() as int].in_use
            &&& q.max_size == p.max_size
            &&& q.timeout == p.timeout
            &&& q.dropped == p.dropped
        }),
{
    let q = p.lease_outcome(path, now).1;
    assert(q.entries.subrange(0, p.entries.len() as int) =~= p.entries);
}

/// Giving back a connection the pool holds succeeds and changes only that
/// connection, which becomes idle: every other connection, in use or not,
/// stays as it was, and so do the pool's limits, clock and drop record.
/// Giving back one the pool does not hold is refused and changes nothing.
pub proof fn lemma_return_changes_only_that_connection(p: PoolView, id: u64, k: int)
    requires
        p.wf(),
        0 <= k < p.entries.len(),
        p.entries[k].id == id,
    ensures
        ({
            let (r, q) = p.return_outcome(id);
            &&& r == Ok::<(), ConnectionPoolError>(())
            &&& q.entries.len() == p.entries.len()
            &&& forall|j: int| 0 <= j < p.entries.len() && j != k ==> #[trigger] q.entries[j] == p.entries[j]
            &&& !q.entries[k].in_use
            &&& q.entries[k].id == p.entries[k].id
            &&& q.entries[k].path == p.entries[k].path
            &&& q.entries[k].db_type == p.entries[k].db_type
            &&& q.entries[k].last_used_time == p.entries[k].last_used_time
            &&& q.max_size == p.max_size
            &&& q.timeout == p.timeout
            &&& q.last_used_time == p.last_used_time
            &&& q.next_id == p.next_id
            &&& q.dropped == p.dropped
        }),
{
    lemma_first_id_exists(p.entries, id, k);
    let k1 = choose|k1: int| first_with_id(p.entries, id, k1);
    if k1 < k {
        assert(p.entries[k1].id != p.entries[k].id);
    } else if k < k1 {
        assert(p.entries[k].id != p.entries[k1].id);
    }
}

/// Giving back a connection the pool does not hold is refused and changes
/// nothing.
pub proof fn lemma_return_unknown_refused(p: PoolView, id: u64)
    requires
        forall|j: int| 0 <= j < p.entries.len() ==> (#[trigger] p.entries[j]).id != id,
    ensures
        p.return_outcome(id) == (Err::<(), ConnectionPoolError>(ConnectionPoolError::ConnectionNotFound), p),
{
}

/// Dropping a connection the pool holds succeeds, takes exactly that
/// connection out of the queue (the others keep their order), frees its
/// slot, records its database as dropped, and leaves the pool's limits,
/// clock and identities as they were.
pub proof fn lemma_drop_frees_a_slot(p: PoolView, id: u64, k: int)
    requires
        p.wf(),
        0 <= k < p.entries.len(),
        p.entries[k].id == id,
    ensures
        ({
            let (r, q) = p.drop_outcome(id);
            &&& r == Ok::<(), PopError>(())
            &&& q.entries == p.entries.remove(k)
            &&& q.entries.len() == p.entries.len() - 1
            &&& q.dropped == p.dropped.push(p.entries[k].path)
            &&& q.max_size == p.max_size
            &&& q.timeout == p.timeout
            &&& q.last_used_time == p.last_used_time
            &&& q.next_id == p.next_id
            &&& !holds_id(q.entries, id)
        }),
{
    lemma_first_id_exists(p.entries, id, k);
    let k1 = choose|k1: int| first_with_id(p.entries, id, k1);
    if k1 < k {
        assert(p.entries[k1].id != p.entries[k].id);
    } else if k < k1 {
        assert(p.entries[k].id != p.entries[k1].id);
    }
    let q = p.drop_outcome(id).1;
    assert forall|j: int| 0 <= j < q.entries.len() implies (#[trigger] q.entries[j]).id != id by {
        if j < k {
            assert(q.entries[j] == p.entries[j]);
            assert(p.entries[j].id != p.entries[k].id);
        } else {
            assert(q.entries[j] == p.entries[j + 1]);
            assert(p.entries[k].id != p.entries[j + 1].id);
        }
    }
}

} // verus!
