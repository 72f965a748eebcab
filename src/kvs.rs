use vstd::prelude::*;
use crate::clock::{ClockError, SizedClock, SystemClock};
use crate::dbs::Error;
use crate::keys::{key_lt, lemma_lex_total, lemma_lex_transitive, lex_lt};
use crate::text::chars_of;

verus! {

/// One write of a log: a key and its new value, or `None` where the key was deleted.
pub type Entry = (Vec<u8>, Option<Vec<u8>>);

/// The bytes of a written entry.
pub type EntryView = (Seq<u8>, Option<Seq<u8>>);

pub open spec fn entry_view(e: Entry) -> EntryView {
    (e.0@, match e.1 {
        Some(v) => Some(v@),
        None => None,
    })
}

pub open spec fn log_view(l: Seq<Entry>) -> Seq<EntryView> {
    l.map_values(|e: Entry| entry_view(e))
}

/// The last write of `key` in `log`: `None` where `log` never writes it.
pub open spec fn last_write(log: Seq<EntryView>, key: Seq<u8>) -> Option<Option<Seq<u8>>>
    decreases log.len(),
{
    if log.len() == 0 {
        None
    } else if log.last().0 == key {
        Some(log.last().1)
    } else {
        last_write(log.drop_last(), key)
    }
}

/// The value of `key` after the writes of `log`, in order.
pub open spec fn read_log(log: Seq<EntryView>, key: Seq<u8>) -> Option<Seq<u8>> {
    match last_write(log, key) {
        Some(v) => v,
        None => None,
    }
}

fn copy_bytes(v: &Vec<u8>) -> (r: Vec<u8>)
    ensures
        r@ == v@,
{
    let mut r: Vec<u8> = Vec::new();
    let mut i: usize = 0;
    while i < v.len()
        invariant
            0 <= i <= v@.len(),
            r@ == v@.take(i as int),
        decreases v.len() - i,
    {
        r.push(v[i]);
        assert(v@.take(i + 1) == v@.take(i as int).push(v@[i as int]));
        i += 1;
    }
    assert(v@.take(i as int) == v@);
    r
}

fn same_bytes(a: &Vec<u8>, b: &Vec<u8>) -> (r: bool)
    ensures
        r == (a@ == b@),
{
    if a.len() != b.len() {
        return false;
    }
    let mut i: usize = 0;
    while i < a.len()
        invariant
            0 <= i <= a@.len(),
            a@.len() == b@.len(),
            forall|j: int| 0 <= j < i ==> a@[j] == b@[j],
        decreases a.len() - i,
    {
        if a[i] != b[i] {
            return false;
        }
        i += 1;
    }
    assert(a@ == b@);
    true
}

fn copy_entry(e: &Entry) -> (r: Entry)
    ensures
        entry_view(r) == entry_view(*e),
{
    let v = match &e.1 {
        Some(v) => Some(copy_bytes(v)),
        None => None,
    };
    (copy_bytes(&e.0), v)
}

fn copy_log(l: &Vec<Entry>) -> (r: Vec<Entry>)
    ensures
        log_view(r@) == log_view(l@),
{
    let mut r: Vec<Entry> = Vec::new();
    let mut i: usize = 0;
    while i < l.len()
        invariant
            0 <= i <= l@.len(),
            log_view(r@) == log_view(l@.take(i as int)),
        decreases l.len() - i,
    {
        let ghost r0 = r@;
        r.push(copy_entry(&l[i]));
        assert(l@.take(i + 1) == l@.take(i as int).push(l@[i as int]));
        assert(log_view(r@) =~= log_view(r0).push(entry_view(l@[i as int])));
        assert(log_view(l@.take(i + 1)) =~= log_view(l@.take(i as int)).push(entry_view(l@[i as int])));
        i += 1;
    }
    assert(l@.take(i as int) == l@);
    r
}

/// The last write of `key` in a log.
fn last_entry(l: &Vec<Entry>, key: &Vec<u8>) -> (r: Option<Option<Vec<u8>>>)
    ensures
        match r {
            Some(Some(v)) => last_write(log_view(l@), key@) == Some(Some(v@)),
            Some(None) => last_write(log_view(l@), key@) == Some(None::<Seq<u8>>),
            None => last_write(log_view(l@), key@) is None,
        },
{
    let mut i: usize = l.len();
    assert(l@.take(i as int) == l@);
    while i > 0
        invariant
            0 <= i <= l@.len(),
            last_write(log_view(l@), key@) == last_write(log_view(l@.take(i as int)), key@),
        decreases i,
    {
        assert(log_view(l@.take(i as int)).drop_last() =~= log_view(l@.take(i - 1)));
        if same_bytes(&l[i - 1].0, key) {
            return match &l[i - 1].1 {
                Some(v) => Some(Some(copy_bytes(v))),
                None => Some(None),
            };
        }
        i -= 1;
    }
    None
}

/// The committed state of the in-memory backend: every write in commit order,
/// and how many commits have been made.
#[derive(Debug)]
pub struct MemStore {
    log: Vec<Entry>,
    version: u64,
    locked: bool,
}

/// The storage backends a connection string can name.
#[derive(Clone, Copy, Debug, PartialEq, Eq, Structural)]
pub enum Backend {
    Memory,
    IndxDb,
    File,
    TiKv,
}

/// The backend that a connection string selects.
pub open spec fn backend_of(path: Seq<char>) -> Option<Backend> {
    if path == seq!['m', 'e', 'm', 'o', 'r', 'y'] {
        Some(Backend::Memory)
    } else if path.len() >= 5 && path.take(5) == seq!['i', 'x', 'd', 'b', ':'] {
        Some(Backend::IndxDb)
    } else if path.len() >= 5 && path.take(5) == seq!['f', 'i', 'l', 'e', ':'] {
        Some(Backend::File)
    } else if path.len() >= 5 && path.take(5) == seq!['t', 'i', 'k', 'v', ':'] {
        Some(Backend::TiKv)
    } else {
        None
    }
}

fn has_prefix(s: &Vec<char>, p: &Vec<char>) -> (r: bool)
    ensures
        r == (p@.len() <= s@.len() && s@.take(p@.len() as int) == p@),
{
    if p.len() > s.len() {
        return false;
    }
    let mut i: usize = 0;
    while i < p.len()
        invariant
            0 <= i <= p@.len() <= s@.len(),
            forall|j: int| 0 <= j < i ==> s@[j] == p@[j],
        decreases p.len() - i,
    {
        if s[i] != p[i] {
            assert(s@.take(p@.len() as int)[i as int] != p@[i as int]);
            return false;
        }
        i += 1;
    }
    assert(s@.take(p@.len() as int) == p@);
    true
}

/// The engine behind a datastore, selected once when it is opened.
#[derive(Debug)]
pub enum Inner {
    Mem(MemStore),
}

/// The datastore: one backend, and the factory of transactions on it.
#[derive(Debug)]
pub struct Datastore {
    inner: Inner,
    clock: SizedClock,
}

/// The state of a datastore as its users see it.
pub struct StoreState {
    /// The committed writes, in commit order.
    pub contents: Seq<EntryView>,
    /// How many write transactions have committed (modulo 2^64).
    pub version: u64,
    /// A transaction holds the serialization lock.
    pub locked: bool,
}

impl View for Datastore {
    type V = StoreState;

    closed spec fn view(&self) -> StoreState {
        match self.inner {
            Inner::Mem(m) => StoreState { contents: log_view(m.log@), version: m.version, locked: m.locked },
        }
    }
}

/// The version after `v`, wrapping at the top.
pub open spec fn next_version(v: u64) -> u64 {
    if v == u64::MAX {
        0
    } else {
        (v + 1) as u64
    }
}

impl Datastore {
    /// The clock that stamps the work done on this store.
    pub closed spec fn clock(&self) -> SizedClock {
        self.clock
    }

    /// Replaces the store's clock, which is the system clock when it opens.
    pub fn set_clock(&mut self, clock: SizedClock)
        ensures
            final(self)@ == old(self)@,
            final(self).clock() == clock,
    {
        self.clock = clock;
    }

    /// A reading of the store's clock in milliseconds, as `SizedClock::now`
    /// gives it; 0 where an incrementing clock has no room left to advance.
    /// A system clock that reads before the epoch is handed on as an error.
    pub fn tick(&mut self) -> (r: Result<u64, ClockError>)
        ensures
            final(self)@ == old(self)@,
            !old(self).clock().can_read() ==> r == Ok::<u64, ClockError>(0) && final(self).clock()
                == old(self).clock(),
            old(self).clock().can_read() ==> match (old(self).clock(), final(self).clock()) {
                (SizedClock::Fake(a), SizedClock::Fake(b)) => b == a && r == Ok::<u64, ClockError>(
                    a.reading().value,
                ),
                (SizedClock::Inc(a), SizedClock::Inc(b)) => {
                    &&& r is Ok
                    &&& r->Ok_0 == a.reading().value + a.step().millis
                    &&& b.reading().value == r->Ok_0
                    &&& b.step() == a.step()
                },
                (SizedClock::System(a), SizedClock::System(b)) => b == a && (r is Err ==> r
                    == Err::<u64, ClockError>(ClockError::BeforeEpoch)),
                _ => false,
            },
    {
        if !self.clock.readable() {
            return Ok(0);
        }
        match self.clock.now() {
            Ok(t) => Ok(t.value),
            Err(e) => Err(e),
        }
    }
    /// Opens the store that the connection string names: `memory` for the
    /// in-memory backend; `ixdb:`, `file:` and `tikv:` name backends that
    /// this build does not hold.
    pub fn new(path: &str) -> (r: Result<Datastore, Error>)
        ensures
            match backend_of(path@) {
                Some(Backend::Memory) => r is Ok && r->Ok_0@.contents.len() == 0 && !r->Ok_0@.locked
                    && r->Ok_0@.version == 0,
                Some(_) => r == Err::<Datastore, Error>(Error::BackendUnavailable),
                None => r == Err::<Datastore, Error>(Error::InvalidPath),
            },
    {
        let s = chars_of(path);
        let memory = vec!['m', 'e', 'm', 'o', 'r', 'y'];
        let ixdb = vec!['i', 'x', 'd', 'b', ':'];
        let file = vec!['f', 'i', 'l', 'e', ':'];
        let tikv = vec!['t', 'i', 'k', 'v', ':'];
        assert(memory@ == seq!['m', 'e', 'm', 'o', 'r', 'y']);
        assert(ixdb@ == seq!['i', 'x', 'd', 'b', ':']);
        assert(file@ == seq!['f', 'i', 'l', 'e', ':']);
        assert(tikv@ == seq!['t', 'i', 'k', 'v', ':']);
        proof {
            if s@ =~= memory@ {
                assert(s@.take(6) =~= s@);
            }
        }
        if has_prefix(&s, &memory) && s.len() == memory.len() {
            assert(s@ == s@.take(6));
            let log: Vec<Entry> = Vec::new();
            assert(log_view(log@).len() == 0);
            Ok(
                Datastore {
                    inner: Inner::Mem(MemStore { log, version: 0, locked: false }),
                    clock: SizedClock::System(SystemClock::new()),
                },
            )
        } else if has_prefix(&s, &ixdb) || has_prefix(&s, &file) || has_prefix(&s, &tikv) {
            Err(Error::BackendUnavailable)
        } else {
            Err(Error::InvalidPath)
        }
    }

    /// A new transaction on the selected backend, seeing the committed
    /// state. A write transaction opened with `lock` takes the store's
    /// serialization lock until it terminates; while another transaction
    /// holds it, opening one fails and the store is unchanged.
    pub fn transaction(&mut self, write: bool, lock: bool) -> (r: Result<Transaction, Error>)
        ensures
            final(self).clock() == old(self).clock(),
            write && lock && old(self)@.locked ==> r == Err::<Transaction, Error>(Error::TxLocked)
                && final(self)@ == old(self)@,
            !(write && lock && old(self)@.locked) ==> {
                &&& r is Ok
                &&& r->Ok_0@ == (TxState {
                    done: false,
                    write,
                    lock,
                    base: old(self)@.contents,
                    writes: Seq::empty(),
                    version: old(self)@.version,
                })
                &&& final(self)@ == (StoreState { locked: old(self)@.locked || (write && lock), ..old(self)@ })
            },
    {
        match &mut self.inner {
            Inner::Mem(m) => {
                if write && lock {
                    if m.locked {
                        return Err(Error::TxLocked);
                    }
                    m.locked = true;
                }
                let tx = MemTx { base: copy_log(&m.log), writes: Vec::new(), version: m.version };
                assert(log_view(tx.writes@) =~= Seq::empty());
                Ok(Transaction { done: false, write, lock, inner: TxInner::Mem(tx) })
            },
        }
    }
}

/// A transaction of the in-memory backend: the state it started from, and its own writes.
#[derive(Debug)]
pub struct MemTx {
    base: Vec<Entry>,
    writes: Vec<Entry>,
    version: u64,
}

/// A backend's transaction.
#[derive(Debug)]
pub enum TxInner {
    Mem(MemTx),
}

/// The state of a transaction as its users see it.
pub struct TxState {
    /// It was committed or cancelled.
    pub done: bool,
    /// It may write.
    pub write: bool,
    /// It was opened with the serialization lock.
    pub lock: bool,
    /// The committed writes it started from.
    pub base: Seq<EntryView>,
    /// Its own writes, in order.
    pub writes: Seq<EntryView>,
    /// The store's version when it started.
    pub version: u64,
}

/// A transaction on one backend, for its whole lifetime.
#[derive(Debug)]
pub struct Transaction {
    done: bool,
    write: bool,
    lock: bool,
    inner: TxInner,
}

impl View for Transaction {
    type V = TxState;

    closed spec fn view(&self) -> TxState {
        match self.inner {
            TxInner::Mem(m) => TxState {
                done: self.done,
                write: self.write,
                lock: self.lock,
                base: log_view(m.base@),
                writes: log_view(m.writes@),
                version: m.version,
            },
        }
    }
}

/// A transaction in state `t` holds its store's serialization lock.
pub open spec fn holds_lock(t: TxState) -> bool {
    t.write && t.lock && !t.done
}

/// The store after the transaction `t` terminates: its lock released if it held it.
pub open spec fn released(t: TxState, d: StoreState) -> StoreState {
    if holds_lock(t) {
        StoreState { locked: false, ..d }
    } else {
        d
    }
}

/// What committing a transaction in state `t` to a store in state `d` returns,
/// and the store after it. A transaction that does not hold the lock cannot
/// publish writes while another holds it; one whose store has seen a commit
/// since it started conflicts.
pub open spec fn commit_outcome(t: TxState, d: StoreState) -> (Result<(), Error>, StoreState) {
    if t.done {
        (Err(Error::TxFinished), d)
    } else if t.writes.len() == 0 {
        (Ok(()), released(t, d))
    } else if !holds_lock(t) && d.locked {
        (Err(Error::TxLocked), d)
    } else if t.version != d.version {
        (Err(Error::TxConflict), released(t, d))
    } else {
        (Ok(()), StoreState {
            contents: d.contents + t.writes,
            version: next_version(d.version),
            locked: released(t, d).locked,
        })
    }
}

/// The value of `key` that a transaction in state `t` sees.
pub open spec fn tx_read(t: TxState, key: Seq<u8>) -> Option<Seq<u8>> {
    read_log(t.base + t.writes, key)
}

impl Transaction {
    /// Reads the value of `key`.
    pub fn get(&self, key: &Vec<u8>) -> (r: Result<Option<Vec<u8>>, Error>)
        ensures
            self@.done ==> r == Err::<Option<Vec<u8>>, Error>(Error::TxFinished),
            !self@.done ==> r is Ok && match r->Ok_0 {
                Some(v) => tx_read(self@, key@) == Some(v@),
                None => tx_read(self@, key@) is None,
            },
    {
        if self.done {
            return Err(Error::TxFinished);
        }
        match &self.inner {
            TxInner::Mem(m) => {
                proof { lemma_last_write_append(log_view(m.base@), log_view(m.writes@), key@); }
                match last_entry(&m.writes, key) {
                    Some(v) => Ok(v),
                    None => match last_entry(&m.base, key) {
                        Some(v) => Ok(v),
                        None => Ok(None),
                    },
                }
            },
        }
    }

    /// Writes `entry` as the transaction's latest write, or fails as `set` and `del` do.
    fn write_entry(&mut self, entry: Entry) -> (r: Result<(), Error>)
        ensures
            old(self)@.done ==> r == Err::<(), Error>(Error::TxFinished) && final(self)@ == old(self)@,
            !old(self)@.done && !old(self)@.write ==> r == Err::<(), Error>(Error::TxReadonly)
                && final(self)@ == old(self)@,
            !old(self)@.done && old(self)@.write ==> r is Ok && final(self)@ == (TxState {
                writes: old(self)@.writes.push(entry_view(entry)),
                ..old(self)@
            }),
    {
        if self.done {
            return Err(Error::TxFinished);
        }
        if !self.write {
            return Err(Error::TxReadonly);
        }
        match &mut self.inner {
            TxInner::Mem(m) => {
                let ghost w = m.writes@;
                m.writes.push(entry);
                assert(log_view(m.writes@) =~= log_view(w).push(entry_view(entry)));
            },
        }
        Ok(())
    }

    /// Sets `key` to `val`.
    pub fn set(&mut self, key: Vec<u8>, val: Vec<u8>) -> (r: Result<(), Error>)
        ensures
            old(self)@.done ==> r == Err::<(), Error>(Error::TxFinished) && final(self)@ == old(self)@,
            !old(self)@.done && !old(self)@.write ==> r == Err::<(), Error>(Error::TxReadonly)
                && final(self)@ == old(self)@,
            !old(self)@.done && old(self)@.write ==> r is Ok && final(self)@ == (TxState {
                writes: old(self)@.writes.push((key@, Some(val@))),
                ..old(self)@
            }),
    {
        self.write_entry((key, Some(val)))
    }

    /// Deletes `key`.
    pub fn del(&mut self, key: Vec<u8>) -> (r: Result<(), Error>)
        ensures
            old(self)@.done ==> r == Err::<(), Error>(Error::TxFinished) && final(self)@ == old(self)@,
            !old(self)@.done && !old(self)@.write ==> r == Err::<(), Error>(Error::TxReadonly)
                && final(self)@ == old(self)@,
            !old(self)@.done && old(self)@.write ==> r is Ok && final(self)@ == (TxState {
                writes: old(self)@.writes.push((key@, None::<Seq<u8>>)),
                ..old(self)@
            }),
    {
        self.write_entry((key, None))
    }

    /// Ends the transaction, discarding its writes, and releases the lock
    /// of `ds` where it holds it.
    pub fn cancel(&mut self, ds: &mut Datastore) -> (r: Result<(), Error>)
        ensures
            old(self)@.done ==> r == Err::<(), Error>(Error::TxFinished) && final(self)@ == old(self)@
                && final(ds)@ == old(ds)@,
            !old(self)@.done ==> r is Ok && final(self)@ == (TxState { done: true, ..old(self)@ })
                && final(ds)@ == released(old(self)@, old(ds)@),
    {
        if self.done {
            return Err(Error::TxFinished);
        }
        self.done = true;
        if self.write && self.lock {
            match &mut ds.inner {
                Inner::Mem(store) => {
                    store.locked = false;
                },
            }
        }
        Ok(())
    }

    /// Ends the transaction and publishes its writes to `ds`, as
    /// `commit_outcome` states.
    pub fn commit(&mut self, ds: &mut Datastore) -> (r: Result<(), Error>)
        ensures
            (r, final(ds)@) == commit_outcome(old(self)@, old(ds)@),
            old(self)@.done ==> final(self)@ == old(self)@,
            !old(self)@.done ==> final(self)@ == (TxState { done: true, ..old(self)@ }),
    {
        if self.done {
            return Err(Error::TxFinished);
        }
        let holds = self.write && self.lock;
        self.done = true;
        match &mut self.inner {
            TxInner::Mem(m) => {
                match &mut ds.inner {
                    Inner::Mem(store) => {
                        if m.writes.len() == 0 {
                            if holds {
                                store.locked = false;
                            }
                            return Ok(());
                        }
                        if !holds && store.locked {
                            return Err(Error::TxLocked);
                        }
                        if store.version != m.version {
                            if holds {
                                store.locked = false;
                            }
                            return Err(Error::TxConflict);
                        }
                        let ghost l = store.log@;
                        let ghost w = m.writes@;
                        let ghost v = store.version;
                        let ghost lk = store.locked;
                        let mut i: usize = 0;
                        while i < m.writes.len()
                            invariant
                                0 <= i <= w.len(),
                                m.writes@ == w,
                                store.version == v,
                                store.locked == lk,
                                log_view(store.log@) == log_view(l) + log_view(w.take(i as int)),
                            decreases w.len() - i,
                        {
                            let ghost s0 = store.log@;
                            store.log.push(copy_entry(&m.writes[i]));
                            assert(w.take(i + 1) == w.take(i as int).push(w[i as int]));
                            assert(log_view(store.log@) =~= log_view(s0).push(entry_view(w[i as int])));
                            assert(log_view(w.take(i + 1)) =~= log_view(w.take(i as int)).push(entry_view(w[i as int])));
                            assert(log_view(store.log@) =~= log_view(l) + log_view(w.take(i + 1)));
                            i += 1;
                        }
                        assert(w.take(i as int) == w);
                        store.version = if store.version == u64::MAX { 0 } else { store.version + 1 };
                        if holds {
                            store.locked = false;
                        }
                        Ok(())
                    },
                }
            },
        }
    }
}

/// While one transaction holds the serialization lock of a store, another
/// that does not hold it publishes nothing: its commit leaves the store's
/// writes, version and lock as they were, and the holder's own commit then
/// succeeds and publishes its writes.
pub proof fn lemma_lock_serializes(holder: TxState, other: TxState, d: StoreState)
    requires
        holds_lock(holder),
        holder.version == d.version,
        d.locked,
        !holds_lock(other),
    ensures
        commit_outcome(other, d).1 == d,
        commit_outcome(holder, commit_outcome(other, d).1).0 is Ok,
        commit_outcome(holder, commit_outcome(other, d).1).1.contents == d.contents + holder.writes,
        !commit_outcome(holder, commit_outcome(other, d).1).1.locked,
{
    assert(d.contents + Seq::<EntryView>::empty() == d.contents);
    if holder.writes.len() == 0 {
        assert(holder.writes == Seq::<EntryView>::empty());
    }
}

proof fn lemma_last_write_append(a: Seq<EntryView>, b: Seq<EntryView>, key: Seq<u8>)
    ensures
        last_write(a + b, key) == if last_write(b, key) is Some {
            last_write(b, key)
        } else {
            last_write(a, key)
        },
    decreases b.len(),
{
    if b.len() > 0 {
        assert((a + b).drop_last() == a + b.drop_last());
        assert((a + b).last() == b.last());
        lemma_last_write_append(a, b.drop_last(), key);
    } else {
        assert(a + b == a);
    }
}

/// A key and its value, as a scan returns them.
pub type Pair = (Vec<u8>, Vec<u8>);

pub open spec fn pairs_view(r: Seq<Pair>) -> Seq<(Seq<u8>, Seq<u8>)> {
    r.map_values(|p: Pair| (p.0@, p.1@))
}

/// The keys of `r` strictly ascend in lexicographic order.
pub open spec fn keys_ascending(r: Seq<(Seq<u8>, Seq<u8>)>) -> bool {
    forall|i: int, j: int| 0 <= i < j < r.len() ==> #[trigger] lex_lt(r[i].0, r[j].0)
}

/// `k` lies in the half-open range from `beg` to `end`.
pub open spec fn in_range(k: Seq<u8>, beg: Seq<u8>, end: Seq<u8>) -> bool {
    !lex_lt(k, beg) && lex_lt(k, end)
}

/// `r` is the scan of the range from `beg` to `end` in a transaction in
/// state `t`: every key of the range that has a value there, once, with that
/// value, in ascending key order.
pub open spec fn is_scan(t: TxState, beg: Seq<u8>, end: Seq<u8>, r: Seq<(Seq<u8>, Seq<u8>)>) -> bool {
    &&& keys_ascending(r)
    &&& forall|i: int| 0 <= i < r.len() ==> in_range(#[trigger] r[i].0, beg, end) && tx_read(t, r[i].0) == Some(r[i].1)
    &&& forall|k: Seq<u8>| in_range(k, beg, end) && #[trigger] tx_read(t, k) is Some
        ==> exists|i: int| 0 <= i < r.len() && r[i].0 == k
}

/// No entry of `l` after position `j` writes the key that `l[j]` writes.
pub open spec fn is_last(l: Seq<EntryView>, j: int) -> bool {
    forall|m: int| j < m < l.len() ==> #[trigger] l[m].0 != l[j].0
}

proof fn lemma_last_write_at(l: Seq<EntryView>, j: int)
    requires
        0 <= j < l.len(),
        is_last(l, j),
    ensures
        last_write(l, l[j].0) == Some(l[j].1),
    decreases l.len(),
{
    if j < l.len() - 1 {
        assert(l[l.len() - 1].0 != l[j].0);
        let d = l.drop_last();
        assert forall|m: int| j < m < d.len() implies #[trigger] d[m].0 != d[j].0 by {
            assert(d[m] == l[m]);
        }
        lemma_last_write_at(d, j);
    }
}

proof fn lemma_last_write_has_index(l: Seq<EntryView>, k: Seq<u8>)
    requires
        last_write(l, k) is Some,
    ensures
        exists|j: int| 0 <= j < l.len() && l[j].0 == k && is_last(l, j) && last_write(l, k) == Some(l[j].1),
    decreases l.len(),
{
    if l.last().0 == k {
        let j = l.len() - 1;
        assert(l.last() == l[j]);
        assert(is_last(l, j));
        assert(0 <= j < l.len() && l[j].0 == k && is_last(l, j) && last_write(l, k) == Some(l[j].1));
    } else {
        let d = l.drop_last();
        lemma_last_write_has_index(d, k);
        let j = choose|j: int| 0 <= j < d.len() && d[j].0 == k && is_last(d, j) && last_write(d, k) == Some(d[j].1);
        assert(l[j] == d[j]);
        assert forall|m: int| j < m < l.len() implies #[trigger] l[m].0 != l[j].0 by {
            if m < d.len() {
                assert(d[m] == l[m]);
            }
        }
        assert(0 <= j < l.len() && l[j].0 == k && is_last(l, j) && last_write(l, k) == Some(l[j].1));
    }
}

/// Inserts a key that `r` does not hold, keeping the keys ascending; returns
/// where it went.
fn insert_sorted(r: &mut Vec<Pair>, k: Vec<u8>, v: Vec<u8>) -> (p: usize)
    requires
        keys_ascending(pairs_view(old(r)@)),
        forall|i: int| 0 <= i < old(r)@.len() ==> #[trigger] old(r)@[i].0@ != k@,
    ensures
        p <= old(r)@.len(),
        pairs_view(final(r)@) == pairs_view(old(r)@).insert(p as int, (k@, v@)),
        keys_ascending(pairs_view(final(r)@)),
{
    let ghost o = pairs_view(r@);
    let mut p: usize = 0;
    while p < r.len() && key_lt(&r[p].0, &k)
        invariant
            0 <= p <= r@.len(),
            o == pairs_view(r@),
            forall|i: int| 0 <= i < p ==> lex_lt(#[trigger] o[i].0, k@),
        decreases r@.len() - p,
    {
        p += 1;
    }
    proof {
        if p < o.len() {
            assert(o[p as int].0 == r@[p as int].0@);
            lemma_lex_total(o[p as int].0, k@);
        }
    }
    let ghost kv = (k@, v@);
    r.insert(p, (k, v));
    proof {
        let n = pairs_view(r@);
        o.insert_ensures(p as int, kv);
        assert(n =~= o.insert(p as int, kv));
        assert forall|i: int, j: int| 0 <= i < j < n.len() implies #[trigger] lex_lt(n[i].0, n[j].0) by {
            if j < p {
                assert(lex_lt(o[i].0, o[j].0));
            } else if j == p {
                assert(lex_lt(o[i].0, k@));
            } else if i == p {
                if j - 1 > p {
                    assert(lex_lt(o[p as int].0, o[j - 1].0));
                    lemma_lex_transitive(k@, o[p as int].0, o[j - 1].0);
                }
            } else if i < p {
                assert(lex_lt(o[i].0, k@));
                assert(lex_lt(k@, o[p as int].0));
                if j - 1 > p {
                    assert(lex_lt(o[p as int].0, o[j - 1].0));
                    lemma_lex_transitive(k@, o[p as int].0, o[j - 1].0);
                }
                lemma_lex_transitive(o[i].0, k@, o[j - 1].0);
            } else {
                assert(lex_lt(o[i - 1].0, o[j - 1].0));
            }
        }
    }
    p
}

fn last_at(l: &Vec<Entry>, j: usize) -> (r: bool)
    requires
        j < l@.len(),
    ensures
        r == is_last(log_view(l@), j as int),
{
    let _len = l.len();
    let mut m: usize = j + 1;
    while m < l.len()
        invariant
            j < m <= l@.len(),
            forall|q: int| j < q < m ==> #[trigger] log_view(l@)[q].0 != log_view(l@)[j as int].0,
        decreases l@.len() - m,
    {
        assert(log_view(l@)[m as int].0 == l@[m as int].0@);
        assert(log_view(l@)[j as int].0 == l@[j as int].0@);
        if same_bytes(&l[m].0, &l[j].0) {
            return false;
        }
        m += 1;
    }
    true
}

impl Transaction {
    /// The keys from `beg` (included) to `end` (excluded) that have a value,
    /// with their values, in ascending key order.
    pub fn scan(&self, beg: &Vec<u8>, end: &Vec<u8>) -> (r: Result<Vec<Pair>, Error>)
        ensures
            self@.done ==> r == Err::<Vec<Pair>, Error>(Error::TxFinished),
            !self@.done ==> r is Ok && is_scan(self@, beg@, end@, pairs_view(r->Ok_0@)),
    {
        if self.done {
            return Err(Error::TxFinished);
        }
        let all = match &self.inner {
            TxInner::Mem(m) => {
                let mut all = copy_log(&m.base);
                let mut w = copy_log(&m.writes);
                let ghost a0 = all@;
                let ghost w0 = w@;
                all.append(&mut w);
                assert(log_view(all@) =~= log_view(a0) + log_view(w0));
                all
            },
        };
        let ghost l = log_view(all@);
        assert(l == self@.base + self@.writes);
        let mut out: Vec<Pair> = Vec::new();
        let mut idx: usize = 0;
        while idx < all.len()
            invariant
                0 <= idx <= all@.len(),
                l == log_view(all@),
                l == self@.base + self@.writes,
                !self@.done,
                keys_ascending(pairs_view(out@)),
                forall|i: int| 0 <= i < out@.len() ==> in_range(#[trigger] pairs_view(out@)[i].0, beg@, end@)
                    && read_log(l, pairs_view(out@)[i].0) == Some(pairs_view(out@)[i].1),
                forall|i: int, q: int| 0 <= i < out@.len() && idx <= q < l.len()
                    ==> #[trigger] l[q].0 != #[trigger] pairs_view(out@)[i].0,
                forall|q: int| 0 <= q < idx && is_last(l, q) && in_range(l[q].0, beg@, end@) && (#[trigger] l[q]).1 is Some
                    ==> exists|i: int| 0 <= i < out@.len() && pairs_view(out@)[i].0 == l[q].0,
            decreases all@.len() - idx,
        {
            let ghost o = pairs_view(out@);
            let live = last_at(&all, idx) && !key_lt(&all[idx].0, beg) && key_lt(&all[idx].0, end);
            if live {
                if let Some(v) = &all[idx].1 {
                    proof {
                        lemma_last_write_at(l, idx as int);
                        assert forall|i: int| 0 <= i < out@.len() implies #[trigger] out@[i].0@ != all@[idx as int].0@ by {
                            assert(o[i].0 == out@[i].0@);
                            assert(l[idx as int].0 != o[i].0);
                        }
                    }
                    let p = insert_sorted(&mut out, copy_bytes(&all[idx].0), copy_bytes(v));
                    proof {
                        let n = pairs_view(out@);
                        o.insert_ensures(p as int, n[p as int]);
                        assert forall|q: int| 0 <= q < idx + 1 && is_last(l, q) && in_range(l[q].0, beg@, end@) && (#[trigger] l[q]).1 is Some
                            implies exists|i: int| 0 <= i < n.len() && n[i].0 == l[q].0 by {
                            if q == idx {
                                assert(n[p as int].0 == l[q].0);
                            } else {
                                let i = choose|i: int| 0 <= i < o.len() && o[i].0 == l[q].0;
                                if i < p {
                                    assert(n[i] == o[i]);
                                } else {
                                    assert(n[i + 1] == o[i]);
                                }
                            }
                        }
                        assert forall|i: int, q: int| 0 <= i < n.len() && idx + 1 <= q < l.len()
                            implies #[trigger] l[q].0 != #[trigger] n[i].0 by {
                            if i < p {
                                assert(n[i] == o[i]);
                            } else if i > p {
                                assert(n[i] == o[i - 1]);
                            }
                        }
                        assert forall|i: int| 0 <= i < n.len() implies in_range(#[trigger] n[i].0, beg@, end@)
                            && read_log(l, n[i].0) == Some(n[i].1) by {
                            if i < p {
                                assert(n[i] == o[i]);
                            } else if i > p {
                                assert(n[i] == o[i - 1]);
                            }
                        }
                    }
                }
            }
            idx += 1;
        }
        proof {
            let o = pairs_view(out@);
            assert forall|k: Seq<u8>| in_range(k, beg@, end@) && #[trigger] tx_read(self@, k) is Some
                implies exists|i: int| 0 <= i < o.len() && o[i].0 == k by {
                lemma_last_write_has_index(l, k);
                let q = choose|q: int| 0 <= q < l.len() && l[q].0 == k && is_last(l, q) && last_write(l, k) == Some(l[q].1);
                assert(l[q].1 is Some);
            }
        }
        Ok(out)
    }
}

} // verus!
