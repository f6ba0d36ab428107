use vstd::prelude::*;
use vstd::slice::slice_to_vec;
use crate::errors::Error;
use crate::order::{bytes_eq, bytes_le, bytes_lt, lex_le, lex_lt};
use crate::peer_meta::TruncatedState;

verus! {

/// A key lies in the half-open byte interval `[start, end)`.
pub open spec fn in_byte_range(k: Seq<u8>, start: Seq<u8>, end: Seq<u8>) -> bool {
    lex_le(start, k) && lex_lt(k, end)
}

/// The visit log `b` extends the visit log `a` without rewriting it.
pub open spec fn log_extends(a: Seq<(Seq<u8>, Seq<u8>)>, b: Seq<(Seq<u8>, Seq<u8>)>) -> bool {
    a.len() <= b.len() && forall|i: int| 0 <= i < a.len() ==> b[i] == a[i]
}

/// Read-through capability: typed point reads against either the durable
/// engine or an in-flight batch view. `u64_at` and `state_at` are the
/// reader's abstract contents; a read returns exactly the abstract value or
/// fails with a storage error, and nothing else.
pub trait Retriever {
    /// Abstract contents: the 64-bit counter stored under `key`, if any.
    spec fn u64_at(&self, key: Seq<u8>) -> Option<u64>;

    /// Abstract contents: the truncated-state record stored under `key`, if any.
    spec fn state_at(&self, key: Seq<u8>) -> Option<TruncatedState>;

    /// Reads the 64-bit counter stored under `key`.
    fn get_u64(&self, key: &Vec<u8>) -> (r: Result<Option<u64>, Error>)
        ensures
            r matches Ok(v) ==> v == self.u64_at(key@),
            r matches Err(e) ==> e == Error::StorageIOError,
    ;

    /// Reads the truncated-state record stored under `key`.
    fn get_state(&self, key: &Vec<u8>) -> (r: Result<Option<TruncatedState>, Error>)
        ensures
            r matches Ok(v) ==> v == self.state_at(key@),
            r matches Err(e) ==> e == Error::StorageIOError,
    ;
}

/// Per-entry callback of a bounded scan. `observed` is the log of entries the
/// visitor has been handed so far; `stopped` whether it has signalled an
/// early stop. A stopped visitor is never visited again.
pub trait Visitor {
    /// Entries handed to the visitor, oldest first.
    spec fn observed(&self) -> Seq<(Seq<u8>, Seq<u8>)>;

    /// Whether the visitor has signalled stop.
    spec fn stopped(&self) -> bool;

    /// Hands one key-value pair to the visitor; `Ok(false)` stops the scan.
    fn visit(&mut self, key: &[u8], value: &[u8]) -> (r: Result<bool, Error>)
        requires
            !old(self).stopped(),
        ensures
            final(self).observed() == old(self).observed().push((key@, value@)),
            final(self).stopped() == (r matches Ok(false)),
            r matches Err(e) ==> e == Error::StorageIOError,
    ;
}

/// The entries of `entries` whose keys lie in `[start, end)`, in their
/// original order.
pub open spec fn in_range_entries(
    entries: Seq<(Seq<u8>, Seq<u8>)>,
    start: Seq<u8>,
    end: Seq<u8>,
) -> Seq<(Seq<u8>, Seq<u8>)>
    decreases entries.len(),
{
    if entries.len() == 0 {
        Seq::empty()
    } else {
        let rest = in_range_entries(entries.drop_last(), start, end);
        if in_byte_range(entries.last().0, start, end) {
            rest.push(entries.last())
        } else {
            rest
        }
    }
}

/// Scan capability over a point-in-time consistent view of the engine.
/// `entries` is the view's abstract contents, in scan order. A scan hands the
/// visitor exactly the in-range entries of some prefix of the view — all of
/// them when it returns `Ok(true)` — stopping early only because the visitor
/// stopped (`Ok(false)`) or a read failed.
pub trait SnapshotView {
    /// Abstract contents of the view, in scan order.
    spec fn entries(&self) -> Seq<(Seq<u8>, Seq<u8>)>;

    /// Scans `[start, end)`, handing each entry to `f`.
    fn scan<V: Visitor>(&self, start: &Vec<u8>, end: &Vec<u8>, f: &mut V) -> (r: Result<
        bool,
        Error,
    >)
        requires
            !old(f).stopped(),
        ensures
            log_extends(old(f).observed(), final(f).observed()),
            forall|i: int|
                old(f).observed().len() <= i < final(f).observed().len() ==> in_byte_range(
                    (#[trigger] final(f).observed()[i]).0,
                    start@,
                    end@,
                ),
            exists|n: int|
                #![auto]
                0 <= n <= self.entries().len() && final(f).observed() == old(f).observed()
                    + in_range_entries(self.entries().take(n), start@, end@),
            r matches Ok(true) ==> final(f).observed() == old(f).observed() + in_range_entries(
                self.entries(),
                start@,
                end@,
            ),
            r matches Ok(b) ==> b == !final(f).stopped(),
            r matches Err(e) ==> e == Error::StorageIOError,
    ;
}

/// Last-write-wins lookup over a log of typed records.
pub open spec fn u64_lookup(entries: Seq<(Vec<u8>, u64)>, key: Seq<u8>) -> Option<u64>
    decreases entries.len(),
{
    if entries.len() == 0 {
        None
    } else if entries.last().0@ == key {
        Some(entries.last().1)
    } else {
        u64_lookup(entries.drop_last(), key)
    }
}

/// Last-write-wins lookup over a log of truncated-state records.
pub open spec fn state_lookup(entries: Seq<(Vec<u8>, TruncatedState)>, key: Seq<u8>) -> Option<
    TruncatedState,
>
    decreases entries.len(),
{
    if entries.len() == 0 {
        None
    } else if entries.last().0@ == key {
        Some(entries.last().1)
    } else {
        state_lookup(entries.drop_last(), key)
    }
}

/// In-memory reader: stands in for the committed engine or an in-flight write
/// batch view wherever a `Retriever` is expected. Reads never fail.
pub struct MemEngine {
    /// Persisted 64-bit counters, in write order.
    pub u64_entries: Vec<(Vec<u8>, u64)>,
    /// Persisted truncated-state records, in write order.
    pub state_entries: Vec<(Vec<u8>, TruncatedState)>,
}

impl MemEngine {
    /// An engine with nothing persisted.
    pub fn new() -> (r: MemEngine)
        ensures
            forall|k: Seq<u8>| r.u64_at(k) is None,
            forall|k: Seq<u8>| r.state_at(k) is None,
    {
        MemEngine { u64_entries: Vec::new(), state_entries: Vec::new() }
    }

    /// Persists a 64-bit counter under `key`, replacing any earlier value.
    pub fn put_u64(&mut self, key: Vec<u8>, value: u64)
        ensures
            final(self).u64_at(key@) == Some(value),
            forall|k: Seq<u8>| k != key@ ==> final(self).u64_at(k) == old(self).u64_at(k),
            forall|k: Seq<u8>| final(self).state_at(k) == old(self).state_at(k),
    {
        let ghost pre = self.u64_entries@;
        self.u64_entries.push((key, value));
        proof {
            assert(self.u64_entries@.drop_last() =~= pre);
        }
    }

    /// Persists a truncated-state record under `key`, replacing any earlier
    /// value.
    pub fn put_state(&mut self, key: Vec<u8>, value: TruncatedState)
        ensures
            final(self).state_at(key@) == Some(value),
            forall|k: Seq<u8>| k != key@ ==> final(self).state_at(k) == old(self).state_at(k),
            forall|k: Seq<u8>| final(self).u64_at(k) == old(self).u64_at(k),
    {
        let ghost pre = self.state_entries@;
        self.state_entries.push((key, value));
        proof {
            assert(self.state_entries@.drop_last() =~= pre);
        }
    }
}

impl Retriever for MemEngine {
    open spec fn u64_at(&self, key: Seq<u8>) -> Option<u64> {
        u64_lookup(self.u64_entries@, key)
    }

    open spec fn state_at(&self, key: Seq<u8>) -> Option<TruncatedState> {
        state_lookup(self.state_entries@, key)
    }

    fn get_u64(&self, key: &Vec<u8>) -> (r: Result<Option<u64>, Error>)
        ensures
            r matches Ok(v) && v == self.u64_at(key@),
    {
        let mut idx: usize = self.u64_entries.len();
        proof {
            assert(self.u64_entries@.subrange(0, idx as int) =~= self.u64_entries@);
        }
        while idx > 0
            invariant
                idx <= self.u64_entries@.len(),
                u64_lookup(self.u64_entries@, key@) == u64_lookup(
                    self.u64_entries@.subrange(0, idx as int),
                    key@,
                ),
            decreases idx,
        {
            idx = idx - 1;
            let ghost upto = self.u64_entries@.subrange(0, idx as int + 1);
            proof {
                assert(upto.last() == self.u64_entries@[idx as int]);
                assert(upto.drop_last() =~= self.u64_entries@.subrange(0, idx as int));
            }
            if bytes_eq(&self.u64_entries[idx].0, key) {
                return Ok(Some(self.u64_entries[idx].1));
            }
        }
        Ok(None)
    }

    fn get_state(&self, key: &Vec<u8>) -> (r: Result<Option<TruncatedState>, Error>)
        ensures
            r matches Ok(v) && v == self.state_at(key@),
    {
        let mut idx: usize = self.state_entries.len();
        proof {
            assert(self.state_entries@.subrange(0, idx as int) =~= self.state_entries@);
        }
        while idx > 0
            invariant
                idx <= self.state_entries@.len(),
                state_lookup(self.state_entries@, key@) == state_lookup(
                    self.state_entries@.subrange(0, idx as int),
                    key@,
                ),
            decreases idx,
        {
            idx = idx - 1;
            let ghost upto = self.state_entries@.subrange(0, idx as int + 1);
            proof {
                assert(upto.last() == self.state_entries@[idx as int]);
                assert(upto.drop_last() =~= self.state_entries@.subrange(0, idx as int));
            }
            if bytes_eq(&self.state_entries[idx].0, key) {
                return Ok(Some(self.state_entries[idx].1));
            }
        }
        Ok(None)
    }
}

/// Model of an engine whose reads always fail: every load surfaces
/// `StorageIOError` and nothing can be observed of its contents.
pub struct FaultEngine {}

impl Retriever for FaultEngine {
    open spec fn u64_at(&self, key: Seq<u8>) -> Option<u64> {
        None
    }

    open spec fn state_at(&self, key: Seq<u8>) -> Option<TruncatedState> {
        None
    }

    fn get_u64(&self, key: &Vec<u8>) -> (r: Result<Option<u64>, Error>)
        ensures
            r matches Err(e) && e == Error::StorageIOError,
    {
        Err(Error::StorageIOError)
    }

    fn get_state(&self, key: &Vec<u8>) -> (r: Result<Option<TruncatedState>, Error>)
        ensures
            r matches Err(e) && e == Error::StorageIOError,
    {
        Err(Error::StorageIOError)
    }
}

/// In-memory point-in-time view: a fixed list of key-value entries, scanned
/// in list order.
pub struct MemSnapshot {
    /// The entries of the view, in scan order.
    pub entries: Vec<(Vec<u8>, Vec<u8>)>,
}

impl SnapshotView for MemSnapshot {
    open spec fn entries(&self) -> Seq<(Seq<u8>, Seq<u8>)> {
        self.entries@.map_values(|p: (Vec<u8>, Vec<u8>)| (p.0@, p.1@))
    }

    fn scan<V: Visitor>(&self, start: &Vec<u8>, end: &Vec<u8>, f: &mut V) -> (r: Result<
        bool,
        Error,
    >) {
        let ghost base = f.observed();
        let ghost ents = self.entries();
        let mut idx: usize = 0;
        proof {
            assert(ents.take(0) =~= Seq::<(Seq<u8>, Seq<u8>)>::empty());
            assert(f.observed() =~= base + in_range_entries(ents.take(0), start@, end@));
        }
        while idx < self.entries.len()
            invariant
                idx <= self.entries@.len(),
                base == old(f).observed(),
                ents == self.entries(),
                ents.len() == self.entries@.len(),
                !f.stopped(),
                f.observed() == base + in_range_entries(ents.take(idx as int), start@, end@),
                log_extends(base, f.observed()),
                forall|i: int|
                    base.len() <= i < f.observed().len() ==> in_byte_range(
                        (#[trigger] f.observed()[i]).0,
                        start@,
                        end@,
                    ),
            decreases self.entries@.len() - idx,
        {
            let ghost visited = in_range_entries(ents.take(idx as int), start@, end@);
            proof {
                assert(ents[idx as int] == (
                    self.entries@[idx as int].0@,
                    self.entries@[idx as int].1@,
                ));
                assert(ents.take(idx as int + 1).drop_last() =~= ents.take(idx as int));
                assert(ents.take(idx as int + 1).last() == ents[idx as int]);
            }
            let in_lo = bytes_le(start, &self.entries[idx].0);
            let in_hi = bytes_lt(&self.entries[idx].0, end);
            if in_lo && in_hi {
                let ghost before = f.observed();
                let res = f.visit(self.entries[idx].0.as_slice(), self.entries[idx].1.as_slice());
                proof {
                    assert(f.observed() == before.push((
                        self.entries@[idx as int].0@,
                        self.entries@[idx as int].1@,
                    )));
                    assert(in_range_entries(ents.take(idx as int + 1), start@, end@) == visited.push(
                        ents[idx as int],
                    ));
                    assert(f.observed() =~= base + in_range_entries(
                        ents.take(idx as int + 1),
                        start@,
                        end@,
                    ));
                    assert forall|i: int| 0 <= i < base.len() implies f.observed()[i] == base[i] by {
                        assert(f.observed()[i] == before[i]);
                    }
                    assert(log_extends(base, f.observed()));
                    assert forall|i: int|
                        base.len() <= i < f.observed().len() implies in_byte_range(
                        (#[trigger] f.observed()[i]).0,
                        start@,
                        end@,
                    ) by {
                        if i < before.len() {
                            assert(f.observed()[i] == before[i]);
                        } else {
                            assert(f.observed()[i] == f.observed().last());
                        }
                    }
                    assert(0 <= idx as int + 1 <= ents.len());
                }
                match res {
                    Err(e) => {
                        return Err(e);
                    },
                    Ok(false) => {
                        return Ok(false);
                    },
                    Ok(true) => {},
                }
            } else {
                proof {
                    assert(!in_byte_range(ents[idx as int].0, start@, end@));
                    assert(in_range_entries(ents.take(idx as int + 1), start@, end@) == visited);
                }
            }
            idx += 1;
        }
        proof {
            assert(ents.take(ents.len() as int) =~= ents);
        }
        Ok(true)
    }
}

/// Visitor that records every entry it is handed and signals stop once a
/// fixed budget of entries has been visited.
pub struct CollectVisitor {
    /// Entries handed to the visitor, in visit order.
    pub seen: Vec<(Vec<u8>, Vec<u8>)>,
    /// Entries still accepted; the visit that exhausts it signals stop.
    pub budget: usize,
    /// Whether the visitor has signalled stop.
    pub is_stopped: bool,
}

impl CollectVisitor {
    /// A fresh visitor that accepts `budget` entries before stopping.
    pub fn new(budget: usize) -> (r: CollectVisitor)
        ensures
            r.observed() == Seq::<(Seq<u8>, Seq<u8>)>::empty(),
            !r.stopped(),
            r.budget == budget,
    {
        let v = CollectVisitor { seen: Vec::new(), budget, is_stopped: false };
        proof {
            assert(v.observed() =~= Seq::<(Seq<u8>, Seq<u8>)>::empty());
        }
        v
    }
}

impl Visitor for CollectVisitor {
    open spec fn observed(&self) -> Seq<(Seq<u8>, Seq<u8>)> {
        self.seen@.map_values(|p: (Vec<u8>, Vec<u8>)| (p.0@, p.1@))
    }

    open spec fn stopped(&self) -> bool {
        self.is_stopped
    }

    fn visit(&mut self, key: &[u8], value: &[u8]) -> (r: Result<bool, Error>)
        ensures
            old(self).budget > 1 ==> (r matches Ok(true) && final(self).budget == old(
                self,
            ).budget - 1),
            old(self).budget <= 1 ==> (r matches Ok(false) && final(self).budget == old(
                self,
            ).budget),
    {
        let k = slice_to_vec(key);
        let v = slice_to_vec(value);
        self.seen.push((k, v));
        proof {
            assert(self.observed() =~= old(self).observed().push((key@, value@)));
        }
        if self.budget > 1 {
            self.budget = self.budget - 1;
            Ok(true)
        } else {
            self.is_stopped = true;
            Ok(false)
        }
    }
}

} // verus!
