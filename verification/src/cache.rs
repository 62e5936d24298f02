//! The liveness cache: the last value seen at every address, kept for a
//! limited time after the address last spoke.

use vstd::prelude::*;
use vstd::hash_map::StringHashMap;
use crate::translate::EncodedValue;

verus! {

/// What the cache keeps for one address.
#[derive(Debug, Clone, Copy, PartialEq, Eq, Structural)]
pub struct CacheEntry {
    /// When the address was last written, in milliseconds.
    pub timestamp: u64,
    /// The value last written.
    pub value: EncodedValue,
}

/// One row of the cache as contracts see it: an address and what is kept
/// for it.
pub struct Row {
    /// The address the row belongs to.
    pub address: Seq<char>,
    /// When the address was last written, and with what.
    pub entry: CacheEntry,
}

/// Whether some row belongs to `address`.
pub open spec fn holds(rows: Seq<Row>, address: Seq<char>) -> bool {
    exists|i: int| 0 <= i < rows.len() && (#[trigger] rows[i]).address == address
}

/// The index of a row that belongs to `address`, if there is one.
pub open spec fn position(rows: Seq<Row>, address: Seq<char>) -> int {
    choose|i: int| 0 <= i < rows.len() && (#[trigger] rows[i]).address == address
}

/// No two rows belong to the same address.
pub open spec fn distinct(rows: Seq<Row>) -> bool {
    forall|i: int, j: int|
        0 <= i < j < rows.len() ==> (#[trigger] rows[i]).address != (#[trigger] rows[j]).address
}

/// The rows read as a table from address to entry.
pub open spec fn table_of(rows: Seq<Row>) -> Map<Seq<char>, CacheEntry> {
    Map::new(
        |address: Seq<char>| holds(rows, address),
        |address: Seq<char>| rows[position(rows, address)].entry,
    )
}

/// The rows after `address` was written: its row is replaced where it stands,
/// or a new row is added at the end.
pub open spec fn upserted(rows: Seq<Row>, address: Seq<char>, value: EncodedValue, now: u64) -> Seq<
    Row,
> {
    let row = Row { address, entry: CacheEntry { timestamp: now, value } };
    if holds(rows, address) {
        rows.update(position(rows, address), row)
    } else {
        rows.push(row)
    }
}

/// Whether an entry written at `timestamp` is older than `ttl` at `now`. An
/// entry whose age equals `ttl` is not; nor is one stamped later than `now`.
pub open spec fn expired(timestamp: u64, now: u64, ttl: u64) -> bool {
    now - timestamp > ttl
}

/// Whether an entry written at `timestamp` has expired at `now`.
pub fn is_expired(timestamp: u64, now: u64, ttl: u64) -> (gone: bool)
    ensures
        gone == expired(timestamp, now, ttl),
{
    now > timestamp && now - timestamp > ttl
}

/// The rows that are left after a sweep, in their old order.
pub open spec fn swept(rows: Seq<Row>, now: u64, ttl: u64) -> Seq<Row> {
    rows.filter(|row: Row| !expired(row.entry.timestamp, now, ttl))
}

/// The part of a table that a sweep leaves.
pub open spec fn live_part(table: Map<Seq<char>, CacheEntry>, now: u64, ttl: u64) -> Map<
    Seq<char>,
    CacheEntry,
> {
    Map::new(
        |address: Seq<char>|
            table.contains_key(address) && !expired(table[address].timestamp, now, ttl),
        |address: Seq<char>| table[address],
    )
}

/// The rows as they are listed for display: address and value, in order.
pub open spec fn listing(rows: Seq<Row>) -> Seq<(Seq<char>, EncodedValue)> {
    Seq::new(rows.len(), |i: int| (rows[i].address, rows[i].entry.value))
}

/// A list of addressed values as contracts see it.
pub open spec fn addressed(pairs: Seq<(String, EncodedValue)>) -> Seq<(Seq<char>, EncodedValue)> {
    Seq::new(pairs.len(), |i: int| (pairs[i].0@, pairs[i].1))
}

/// With distinct addresses, the row at an index is the one its address is
/// found at, and the table holds what the row holds.
pub proof fn lemma_row_found(rows: Seq<Row>, i: int)
    requires
        distinct(rows),
        0 <= i < rows.len(),
    ensures
        holds(rows, rows[i].address),
        position(rows, rows[i].address) == i,
        table_of(rows).contains_key(rows[i].address),
        table_of(rows)[rows[i].address] == rows[i].entry,
{
    let p = position(rows, rows[i].address);
    assert(rows[p].address == rows[i].address);
}

/// Writing an address keeps the addresses distinct and changes the table at
/// that address only.
pub proof fn lemma_upserted(rows: Seq<Row>, address: Seq<char>, value: EncodedValue, now: u64)
    requires
        distinct(rows),
    ensures
        distinct(upserted(rows, address, value, now)),
        holds(upserted(rows, address, value, now), address),
        table_of(upserted(rows, address, value, now)) == table_of(rows).insert(
            address,
            CacheEntry { timestamp: now, value },
        ),
        upserted(rows, address, value, now).len() == if holds(rows, address) {
            rows.len()
        } else {
            rows.len() + 1
        },
{
    let after = upserted(rows, address, value, now);
    let entry = CacheEntry { timestamp: now, value };
    // The row that was written stands at `k`; every other row is as it was.
    let k = if holds(rows, address) {
        position(rows, address)
    } else {
        rows.len() as int
    };
    assert(after[k] == Row { address, entry });
    assert forall|i: int| 0 <= i < after.len() && i != k implies after[i] == rows[i] && rows[i].address
        != address by {
        if holds(rows, address) {
            lemma_row_found(rows, k);
        }
    }
    lemma_row_found(after, k);
    assert forall|a: Seq<char>| a != address implies (holds(after, a) <==> holds(rows, a)) by {
        if holds(after, a) {
            assert(rows[position(after, a)].address == a);
        }
        if holds(rows, a) {
            assert(after[position(rows, a)].address == a);
        }
    }
    assert forall|a: Seq<char>| a != address && holds(after, a) implies table_of(after)[a]
        == table_of(rows)[a] by {
        let i = position(after, a);
        lemma_row_found(after, i);
        lemma_row_found(rows, i);
    }
    assert(table_of(after) =~= table_of(rows).insert(address, entry));
}

/// What a sweep keeps: exactly the rows that have not expired, each once and
/// with addresses still distinct, and so the live part of the table.
pub proof fn lemma_swept(rows: Seq<Row>, now: u64, ttl: u64)
    ensures
        swept(rows, now, ttl).len() <= rows.len(),
        forall|j: int|
            0 <= j < swept(rows, now, ttl).len() ==> rows.contains(#[trigger] swept(rows, now, ttl)[j])
                && !expired(swept(rows, now, ttl)[j].entry.timestamp, now, ttl),
        forall|i: int|
            0 <= i < rows.len() && !expired(rows[i].entry.timestamp, now, ttl) ==> swept(
                rows,
                now,
                ttl,
            ).contains(#[trigger] rows[i]),
        distinct(rows) ==> distinct(swept(rows, now, ttl)),
        distinct(rows) ==> table_of(swept(rows, now, ttl)) == live_part(table_of(rows), now, ttl),
    decreases rows.len(),
{
    reveal(Seq::filter);
    let out = swept(rows, now, ttl);
    if rows.len() > 0 {
        // The sweep of all rows is the sweep of all but the last, followed
        // by the last if it has not expired.
        let init = rows.drop_last();
        let sub = swept(init, now, ttl);
        lemma_swept(init, now, ttl);
        assert forall|j: int| 0 <= j < out.len() implies rows.contains(#[trigger] out[j]) by {
            if j < sub.len() {
                let i = choose|i: int| 0 <= i < init.len() && init[i] == sub[j];
                assert(rows[i] == out[j]);
            } else {
                assert(rows[rows.len() - 1] == out[j]);
            }
        }
        assert forall|i: int|
            0 <= i < rows.len() && !expired(rows[i].entry.timestamp, now, ttl) implies out.contains(
            #[trigger] rows[i],
        ) by {
            if i < init.len() {
                let j = choose|j: int| 0 <= j < sub.len() && sub[j] == init[i];
                assert(out[j] == rows[i]);
            } else {
                assert(out[out.len() - 1] == rows[i]);
            }
        }
        if distinct(rows) {
            assert(distinct(init)) by {
                assert forall|i: int, j: int| 0 <= i < j < init.len() implies (#[trigger] init[i]).address
                    != (#[trigger] init[j]).address by {
                    assert(rows[i].address != rows[j].address);
                }
            }
            assert forall|i: int, j: int| 0 <= i < j < out.len() implies (#[trigger] out[i]).address
                != (#[trigger] out[j]).address by {
                if j < sub.len() {
                    assert(sub[i].address != sub[j].address);
                } else {
                    let k = choose|k: int| 0 <= k < init.len() && init[k] == sub[i];
                    assert(rows[k].address != rows[rows.len() - 1].address);
                }
            }
        }
    }
    if distinct(rows) {
        let before = table_of(rows);
        let after = table_of(out);
        assert forall|a: Seq<char>| #[trigger]
            after.contains_key(a) == live_part(before, now, ttl).contains_key(a) by {
            if holds(out, a) {
                let j = position(out, a);
                let i = choose|i: int| 0 <= i < rows.len() && rows[i] == out[j];
                lemma_row_found(rows, i);
            }
            if holds(rows, a) && !expired(before[a].timestamp, now, ttl) {
                let i = position(rows, a);
                lemma_row_found(rows, i);
                let j = choose|j: int| 0 <= j < out.len() && out[j] == rows[i];
                assert(out[j].address == a);
            }
        }
        assert forall|a: Seq<char>| #[trigger] after.contains_key(a) implies after[a] == before[a] by {
            let j = position(out, a);
            lemma_row_found(out, j);
            let i = choose|i: int| 0 <= i < rows.len() && rows[i] == out[j];
            lemma_row_found(rows, i);
        }
        assert(after =~= live_part(before, now, ttl));
    }
}

/// With distinct addresses, the table has as many keys as there are rows.
pub proof fn lemma_table_len(rows: Seq<Row>)
    requires
        distinct(rows),
    ensures
        table_of(rows).dom().finite(),
        table_of(rows).len() == rows.len(),
    decreases rows.len(),
{
    if rows.len() == 0 {
        assert(table_of(rows) =~= Map::<Seq<char>, CacheEntry>::empty());
    } else {
        let init = rows.drop_last();
        let last = rows.last();
        assert(distinct(init)) by {
            assert forall|i: int, j: int| 0 <= i < j < init.len() implies (#[trigger] init[i]).address
                != (#[trigger] init[j]).address by {
                assert(rows[i].address != rows[j].address);
            }
        }
        lemma_table_len(init);
        assert(!holds(init, last.address)) by {
            if holds(init, last.address) {
                let i = position(init, last.address);
                assert(rows[i].address != rows[rows.len() - 1].address);
            }
        }
        assert(upserted(init, last.address, last.entry.value, last.entry.timestamp) =~= rows);
        lemma_upserted(init, last.address, last.entry.value, last.entry.timestamp);
    }
}

/// Last write wins: writing an address a second time leaves the rows as if
/// only the second write had happened. The address keeps its single row, and
/// the table shows the second value and time.
pub proof fn lemma_last_write_wins(
    rows: Seq<Row>,
    address: Seq<char>,
    first: EncodedValue,
    earlier: u64,
    second: EncodedValue,
    later: u64,
)
    requires
        distinct(rows),
    ensures
        upserted(upserted(rows, address, first, earlier), address, second, later) == upserted(
            rows,
            address,
            second,
            later,
        ),
        distinct(upserted(rows, address, second, later)),
        holds(upserted(rows, address, second, later), address),
        table_of(upserted(rows, address, second, later))[address] == (CacheEntry {
            timestamp: later,
            value: second,
        }),
{
    let once = upserted(rows, address, first, earlier);
    lemma_upserted(rows, address, first, earlier);
    lemma_upserted(rows, address, second, later);
    // After the first write the address stands at `k`, and the second write
    // finds it there.
    let k = if holds(rows, address) {
        position(rows, address)
    } else {
        rows.len() as int
    };
    assert(once[k].address == address);
    lemma_row_found(once, k);
    assert(upserted(once, address, second, later) =~= upserted(rows, address, second, later));
}

/// The rows after one address was written several times, first to last,
/// each time with a value and a time.
pub open spec fn rewritten(
    rows: Seq<Row>,
    address: Seq<char>,
    writes: Seq<(EncodedValue, u64)>,
) -> Seq<Row>
    decreases writes.len(),
{
    if writes.len() == 0 {
        rows
    } else {
        upserted(
            rewritten(rows, address, writes.drop_last()),
            address,
            writes.last().0,
            writes.last().1,
        )
    }
}

/// However often an address is written, it has one row, and the row shows
/// the last write: the rows are as if only the last write had happened.
pub proof fn lemma_repeated_writes(
    rows: Seq<Row>,
    address: Seq<char>,
    writes: Seq<(EncodedValue, u64)>,
)
    requires
        distinct(rows),
        writes.len() > 0,
    ensures
        rewritten(rows, address, writes) == upserted(
            rows,
            address,
            writes.last().0,
            writes.last().1,
        ),
        distinct(rewritten(rows, address, writes)),
        holds(rewritten(rows, address, writes), address),
        table_of(rewritten(rows, address, writes))[address] == (CacheEntry {
            timestamp: writes.last().1,
            value: writes.last().0,
        }),
    decreases writes.len(),
{
    let earlier = writes.drop_last();
    if earlier.len() == 0 {
        lemma_upserted(rows, address, writes.last().0, writes.last().1);
    } else {
        lemma_repeated_writes(rows, address, earlier);
        lemma_last_write_wins(
            rows,
            address,
            earlier.last().0,
            earlier.last().1,
            writes.last().0,
            writes.last().1,
        );
    }
}

/// The boundary of the time to live: an entry written at `written` is still
/// there after a sweep at `now` exactly when no more than `ttl` has passed,
/// and then it is unchanged.
pub proof fn lemma_ttl_boundary(
    rows: Seq<Row>,
    address: Seq<char>,
    value: EncodedValue,
    written: u64,
    now: u64,
    ttl: u64,
)
    requires
        distinct(rows),
    ensures
        holds(swept(upserted(rows, address, value, written), now, ttl), address) <==> now - written
            <= ttl,
        now - written <= ttl ==> table_of(swept(upserted(rows, address, value, written), now, ttl))[address]
            == (CacheEntry { timestamp: written, value }),
{
    let fresh = upserted(rows, address, value, written);
    lemma_upserted(rows, address, value, written);
    lemma_swept(fresh, now, ttl);
}

/// The addresses of a vector of keys, in order.
spec fn keys_of(order: Seq<String>) -> Seq<Seq<char>> {
    Seq::new(order.len(), |i: int| order[i]@)
}

/// The rows that a list of keys and a map of entries stand for.
spec fn rows_of(keys: Seq<Seq<char>>, slots: Map<Seq<char>, CacheEntry>) -> Seq<Row> {
    Seq::new(keys.len(), |i: int| Row { address: keys[i], entry: slots[keys[i]] })
}

/// The list of keys names every key of the map, once.
spec fn coherent(keys: Seq<Seq<char>>, slots: Map<Seq<char>, CacheEntry>) -> bool {
    &&& forall|i: int, j: int| 0 <= i < j < keys.len() ==> #[trigger] keys[i] != #[trigger] keys[j]
    &&& forall|i: int| 0 <= i < keys.len() ==> slots.contains_key(#[trigger] keys[i])
    &&& forall|k: Seq<char>| #[trigger]
        slots.contains_key(k) ==> exists|i: int| 0 <= i < keys.len() && #[trigger] keys[i] == k
}

/// Coherent keys and entries stand for rows with distinct addresses whose
/// table is the map itself.
proof fn lemma_coherent(keys: Seq<Seq<char>>, slots: Map<Seq<char>, CacheEntry>)
    requires
        coherent(keys, slots),
    ensures
        distinct(rows_of(keys, slots)),
        table_of(rows_of(keys, slots)) == slots,
        forall|k: Seq<char>| holds(rows_of(keys, slots), k) <==> #[trigger] slots.contains_key(k),
{
    let rows = rows_of(keys, slots);
    assert(distinct(rows)) by {
        assert forall|i: int, j: int| 0 <= i < j < rows.len() implies (#[trigger] rows[i]).address
            != (#[trigger] rows[j]).address by {
            assert(keys[i] != keys[j]);
        }
    }
    assert forall|k: Seq<char>| holds(rows, k) <==> #[trigger] slots.contains_key(k) by {
        if holds(rows, k) {
            let i = position(rows, k);
            assert(slots.contains_key(keys[i]));
        }
        if slots.contains_key(k) {
            let i = choose|i: int| 0 <= i < keys.len() && #[trigger] keys[i] == k;
            assert(rows[i].address == k);
        }
    }
    assert forall|k: Seq<char>| #[trigger] slots.contains_key(k) implies table_of(rows)[k]
        == slots[k] by {
        let i = choose|i: int| 0 <= i < keys.len() && #[trigger] keys[i] == k;
        assert(rows[i].address == k);
        lemma_row_found(rows, i);
    }
    assert(table_of(rows) =~= slots);
}

/// Whether `k` is among the first `n` keys.
spec fn listed(keys: Seq<Seq<char>>, n: int, k: Seq<char>) -> bool {
    exists|j: int| 0 <= j < n && #[trigger] keys[j] == k
}

/// The entries that are still in the map when the first `n` keys have been
/// swept.
spec fn half_swept(
    keys: Seq<Seq<char>>,
    slots: Map<Seq<char>, CacheEntry>,
    n: int,
    now: u64,
    ttl: u64,
) -> Map<Seq<char>, CacheEntry> {
    Map::new(
        |k: Seq<char>|
            slots.contains_key(k) && !(expired(slots[k].timestamp, now, ttl) && listed(keys, n, k)),
        |k: Seq<char>| slots[k],
    )
}

/// A cache from address to the value last seen there and the time it was
/// seen. Every address has at most one row; rows keep the order in which
/// their addresses first appeared.
pub struct LivenessCache {
    order: Vec<String>,
    slots: StringHashMap<CacheEntry>,
}

impl View for LivenessCache {
    type V = Seq<Row>;

    closed spec fn view(&self) -> Seq<Row> {
        rows_of(keys_of(self.order@), self.slots@)
    }
}

impl LivenessCache {
    #[verifier::type_invariant]
    spec fn one_row_per_address(self) -> bool {
        coherent(keys_of(self.order@), self.slots@)
    }

    /// The cache read as a table from address to entry.
    pub open spec fn table(&self) -> Map<Seq<char>, CacheEntry> {
        table_of(self@)
    }

    /// An empty cache.
    pub fn new() -> (cache: LivenessCache)
        ensures
            cache@ == Seq::<Row>::empty(),
            cache.table() == Map::<Seq<char>, CacheEntry>::empty(),
    {
        LivenessCache { order: Vec::new(), slots: StringHashMap::new() }
    }

    /// Records that `address` carried `value` at `now`: the row of the
    /// address is overwritten where it stands, or a row is added at the end.
    pub fn upsert(&mut self, address: String, value: EncodedValue, now: u64)
        ensures
            final(self)@ == upserted(old(self)@, address@, value, now),
            final(self).table() == old(self).table().insert(
                address@,
                CacheEntry { timestamp: now, value },
            ),
            distinct(final(self)@),
    {
        proof {
            use_type_invariant(&*self);
            lemma_coherent(keys_of(self.order@), self.slots@);
            lemma_upserted(self@, address@, value, now);
        }
        let ghost rows = self@;
        let mut taken = LivenessCache::new();
        std::mem::swap(self, &mut taken);
        let LivenessCache { mut order, mut slots } = taken;
        let ghost keys = keys_of(order@);
        let ghost before = slots@;
        let ghost key = address@;
        let entry = CacheEntry { timestamp: now, value };
        if !slots.contains_key(address.as_str()) {
            order.push(address.clone());
            assert(keys_of(order@) =~= keys.push(key));
        }
        slots.insert(address, entry);
        proof {
            let after_keys = keys_of(order@);
            if before.contains_key(key) {
                let i = choose|i: int| 0 <= i < keys.len() && #[trigger] keys[i] == key;
                lemma_row_found(rows, i);
                assert(rows_of(after_keys, slots@) =~= rows.update(i, Row { address: key, entry }));
            } else {
                assert(rows_of(after_keys, slots@) =~= rows.push(Row { address: key, entry }));
            }
            assert forall|k: Seq<char>| #[trigger] slots@.contains_key(k) implies exists|i: int|
                0 <= i < after_keys.len() && #[trigger] after_keys[i] == k by {
                if k == key && !before.contains_key(key) {
                    assert(after_keys[keys.len() as int] == k);
                } else {
                    let i = choose|i: int| 0 <= i < keys.len() && #[trigger] keys[i] == k;
                    assert(after_keys[i] == k);
                }
            }
            assert(coherent(after_keys, slots@));
        }
        *self = LivenessCache { order, slots };
    }

    /// Drops every row that is older than `ttl` at `now`; a row whose age is
    /// exactly `ttl` stays. The rows that stay keep their order.
    pub fn sweep(&mut self, now: u64, ttl: u64)
        ensures
            final(self)@ == swept(old(self)@, now, ttl),
            final(self).table() == live_part(old(self).table(), now, ttl),
            distinct(final(self)@),
    {
        proof {
            use_type_invariant(&*self);
            lemma_coherent(keys_of(self.order@), self.slots@);
            lemma_swept(self@, now, ttl);
        }
        let ghost rows = self@;
        let mut taken = LivenessCache::new();
        std::mem::swap(self, &mut taken);
        let LivenessCache { order, mut slots } = taken;
        let ghost keys = keys_of(order@);
        let ghost before = slots@;
        let mut kept: Vec<String> = Vec::new();
        proof {
            reveal(Seq::filter);
            assert(slots@ =~= half_swept(keys, before, 0, now, ttl));
        }
        for address in iter: order.into_iter()
            invariant
                keys == keys_of(iter.seq()),
                coherent(keys, before),
                rows == rows_of(keys, before),
                rows_of(keys_of(kept@), before) == swept(rows.take(iter.index()), now, ttl),
                slots@ == half_swept(keys, before, iter.index(), now, ttl),
        {
            proof {
                let done = iter.index();
                reveal(Seq::filter);
                assert(rows.take(done + 1).drop_last() =~= rows.take(done));
                assert(rows.take(done + 1).last() == rows[done]);
                assert(before.contains_key(keys[done]));
            }
            let gone = match slots.get(address.as_str()) {
                Some(entry) => is_expired(entry.timestamp, now, ttl),
                None => true,
            };
            if gone {
                slots.remove(address.as_str());
            } else {
                kept.push(address);
            }
        }
        proof {
            let left = keys_of(kept@);
            let out = swept(rows, now, ttl);
            assert(rows.take(rows.len() as int) =~= rows);
            // Every key that is left has its row among the old ones, with an
            // entry that was not dropped.
            assert forall|i: int| 0 <= i < left.len() implies #[trigger] left[i] == out[i].address
                && slots@.contains_key(left[i]) && slots@[left[i]] == out[i].entry by {
                assert(rows_of(left, before)[i] == out[i]);
                let j = choose|j: int| 0 <= j < rows.len() && rows[j] == out[i];
                assert(keys[j] == left[i]);
            }
            assert(rows_of(left, slots@) =~= out);
            // And every entry that was not dropped has its key left.
            assert forall|k: Seq<char>| #[trigger] slots@.contains_key(k) implies exists|i: int|
                0 <= i < left.len() && #[trigger] left[i] == k by {
                let j = choose|j: int| 0 <= j < keys.len() && #[trigger] keys[j] == k;
                assert(out.contains(rows[j]));
                let i = choose|i: int| 0 <= i < out.len() && out[i] == rows[j];
                assert(left[i] == k);
            }
            assert(coherent(left, slots@));
            lemma_coherent(left, slots@);
        }
        *self = LivenessCache { order: kept, slots };
    }

    /// The rows for display: every address with its value, in the order in
    /// which the addresses first appeared. No address is listed twice.
    pub fn snapshot(&self) -> (rows: Vec<(String, EncodedValue)>)
        ensures
            addressed(rows@) == listing(self@),
            distinct(self@),
    {
        proof {
            use_type_invariant(self);
            lemma_coherent(keys_of(self.order@), self.slots@);
        }
        let mut rows: Vec<(String, EncodedValue)> = Vec::new();
        let mut i: usize = 0;
        while i < self.order.len()
            invariant
                i <= self.order.len(),
                rows@.len() == i,
                coherent(keys_of(self.order@), self.slots@),
                forall|k: int|
                    0 <= k < i ==> (#[trigger] rows@[k]).0@ == self@[k].address && rows@[k].1
                        == self@[k].entry.value,
            decreases self.order.len() - i,
        {
            assert(self.slots@.contains_key(keys_of(self.order@)[i as int]));
            if let Some(entry) = self.slots.get(self.order[i].as_str()) {
                rows.push((self.order[i].clone(), entry.value));
            }
            i += 1;
        }
        rows
    }

    /// The number of addresses that have a row.
    pub fn len(&self) -> (n: usize)
        ensures
            n == self@.len(),
            n == self.table().len(),
    {
        proof {
            use_type_invariant(self);
            lemma_coherent(keys_of(self.order@), self.slots@);
            lemma_table_len(self@);
        }
        self.order.len()
    }

    /// What is kept for `address`, if it has a row.
    pub fn get(&self, address: &str) -> (found: Option<CacheEntry>)
        ensures
            found == if self.table().contains_key(address@) {
                Some(self.table()[address@])
            } else {
                None
            },
    {
        proof {
            use_type_invariant(self);
            lemma_coherent(keys_of(self.order@), self.slots@);
        }
        match self.slots.get(address) {
            Some(entry) => Some(*entry),
            None => None,
        }
    }
}

} // verus!
