use vstd::prelude::*;
use vstd::string::StringSliceAdditionalSpecFns;

use tokio::sync::broadcast::Sender;

use crate::index::{
    entry_pairs, entry_pairs_of, has_bucket, matching_keys, new_index, postings_for, split_query,
    IndexError, NonsenseIndex, PostingView, NONSENSE, NOT_AN_OBJECT, TANTIVY, index_message,
};
use crate::json::{not_an_object, pairs_view};
use crate::shared::now_as_nanos_u64;
use crate::storage::{new_storage, storage_message, InMemory, StorageError, FILE, IN_MEMORY};

verus! {

/// Identifier of a stored entry.
pub type Key = u64;

/// Watermark of an incremental lookup: nanoseconds since the Unix epoch.
pub type Skip = u64;

/// How many published entries a slow subscriber may fall behind before it
/// loses the oldest.
pub const CHANNEL_CAPACITY: usize = 100;

/// The sending half of a `tokio::sync::broadcast` channel, held opaque.
#[verifier::external_type_specification]
#[verifier::external_body]
#[verifier::reject_recursive_types(T)]
pub struct ExSender<T>(Sender<T>);

/// Relies on `tokio::sync::broadcast::channel`, which panics on a capacity of
/// zero or above `usize::MAX / 2`; the receiver it also returns is dropped.
#[verifier::external_body]
fn open_channel(capacity: usize) -> (r: Sender<Vec<u8>>)
    requires
        0 < capacity <= usize::MAX / 2,
{
    tokio::sync::broadcast::channel(capacity).0
}

/// Relies on `Sender::clone`: another handle on the same channel.
#[verifier::external_body]
fn share_channel(tx: &Sender<Vec<u8>>) -> (r: Sender<Vec<u8>>) {
    tx.clone()
}

/// Relies on `Sender::receiver_count`: how many receivers are subscribed now.
#[verifier::external_body]
fn subscriber_count(tx: &Sender<Vec<u8>>) -> (r: usize) {
    tx.receiver_count()
}

/// Relies on `Sender::send`: whether the channel took `data`, which it
/// refuses only when no receiver is subscribed.
#[verifier::external_body]
fn send_entry(tx: &Sender<Vec<u8>>, data: Vec<u8>) -> (r: bool) {
    tx.send(data).is_ok()
}

/// Relies on `fastrand::u64` over the whole range: a random key.
#[verifier::external_body]
fn random_key() -> (r: Key) {
    fastrand::u64(..)
}

/// Whether a publication has anyone to reach: the engine keeps no receiver
/// of its own, so every subscriber is a real one.
pub open spec fn has_subscriber(count: usize) -> bool {
    count > 0
}

/// Whether to publish to a channel that has `count` subscribers.
pub fn should_publish(count: usize) -> (r: bool)
    ensures
        r == has_subscriber(count),
{
    count > 0
}

/// Why an engine operation failed.
#[derive(Debug)]
pub enum EngineError {
    Index(IndexError),
    Storage(StorageError),
}

/// The text of an engine error: that of the index or storage error it
/// carries.
pub open spec fn engine_message(e: EngineError) -> Seq<char> {
    match e {
        EngineError::Index(i) => index_message(i),
        EngineError::Storage(s) => storage_message(s),
    }
}

impl EngineError {
    /// The error as text for a reader.
    pub fn message(&self) -> (r: String)
        ensures
            r@ == engine_message(*self),
    {
        match self {
            EngineError::Index(e) => e.message(),
            EngineError::Storage(e) => e.message(),
        }
    }
}

/// The facts that indexing entries `es` at time `t` records, in order; `None`
/// where one of them is not a JSON object.
pub open spec fn restored(es: Seq<(u64, Seq<u8>)>, t: u64) -> Option<Seq<PostingView>>
    decreases es.len(),
{
    if es.len() == 0 {
        Some(seq![])
    } else {
        match (restored(es.drop_last(), t), entry_pairs(es.last().1)) {
            (Some(ps), Some(pairs)) => Some(ps + postings_for(pairs, es.last().0, t)),
            _ => None,
        }
    }
}

/// Whether a fact holds `value` under `field` for entry `key`, recorded at
/// or after `skip`.
pub open spec fn recorded_since(
    ps: Seq<PostingView>,
    field: Seq<u8>,
    value: Seq<u8>,
    key: u64,
    skip: u64,
) -> bool {
    exists|j: int|
        0 <= j < ps.len() && #[trigger] ps[j].2 == key && ps[j].0 == field && ps[j].1 == value
            && ps[j].3 >= skip
}

/// Every key that a lookup returns is named by a fact recorded at or after
/// the watermark.
proof fn lemma_matching_keys_named(ps: Seq<PostingView>, field: Seq<u8>, value: Seq<u8>, skip: u64)
    ensures
        forall|i: int|
            0 <= i < matching_keys(ps, field, value, skip).len() ==> recorded_since(
                ps,
                field,
                value,
                #[trigger] matching_keys(ps, field, value, skip)[i],
                skip,
            ),
    decreases ps.len(),
{
    if ps.len() > 0 {
        let pre = ps.drop_last();
        lemma_matching_keys_named(pre, field, value, skip);
        let mk = matching_keys(ps, field, value, skip);
        let mp = matching_keys(pre, field, value, skip);
        assert forall|i: int| 0 <= i < mk.len() implies recorded_since(
            ps,
            field,
            value,
            #[trigger] mk[i],
            skip,
        ) by {
            if i < mp.len() {
                assert(mk[i] == mp[i]);
                assert(recorded_since(pre, field, value, mp[i], skip));
                let j = choose|j: int|
                    0 <= j < pre.len() && #[trigger] pre[j].2 == mp[i] && pre[j].0 == field
                        && pre[j].1 == value && pre[j].3 >= skip;
                assert(ps[j] == pre[j]);
            } else {
                assert(ps[ps.len() - 1] == ps.last());
            }
        }
    }
}

/// Where no fact holds `value` under `field`, a lookup finds no key.
proof fn lemma_no_bucket_no_keys(ps: Seq<PostingView>, field: Seq<u8>, value: Seq<u8>, skip: u64)
    requires
        !has_bucket(ps, field, value),
    ensures
        matching_keys(ps, field, value, skip) == Seq::<u64>::empty(),
    decreases ps.len(),
{
    if ps.len() > 0 {
        let pre = ps.drop_last();
        assert(!has_bucket(pre, field, value)) by {
            if has_bucket(pre, field, value) {
                let j = choose|j: int| 0 <= j < pre.len() && pre[j].0 == field && pre[j].1 == value;
                assert(ps[j] == pre[j]);
            }
        }
        assert(ps[ps.len() - 1] == ps.last());
        lemma_no_bucket_no_keys(pre, field, value, skip);
    }
}

/// Every fact with `value` under `field` recorded at or after the watermark
/// gives its key to a lookup.
proof fn lemma_matching_keys_complete(
    ps: Seq<PostingView>,
    field: Seq<u8>,
    value: Seq<u8>,
    skip: u64,
)
    ensures
        forall|j: int|
            0 <= j < ps.len() && (#[trigger] ps[j]).0 == field && ps[j].1 == value && ps[j].3
                >= skip ==> matching_keys(ps, field, value, skip).contains(ps[j].2),
    decreases ps.len(),
{
    if ps.len() > 0 {
        let pre = ps.drop_last();
        lemma_matching_keys_complete(pre, field, value, skip);
        let mk = matching_keys(ps, field, value, skip);
        let mp = matching_keys(pre, field, value, skip);
        assert forall|j: int|
            0 <= j < ps.len() && (#[trigger] ps[j]).0 == field && ps[j].1 == value && ps[j].3
                >= skip implies mk.contains(ps[j].2) by {
            if j < pre.len() {
                assert(pre[j] == ps[j]);
                let n = choose|n: int| 0 <= n < mp.len() && mp[n] == ps[j].2;
                assert(mk[n] == mp[n]);
            } else {
                assert(ps.last() == ps[j]);
                assert(mk[mk.len() - 1] == ps[j].2);
            }
        }
    }
}

/// The watermark law of lookups: a lookup from watermark `skip` returns a key
/// only where a fact for it was recorded at or after `skip`, so an entry
/// indexed before the watermark is never returned; and it returns the key of
/// every fact recorded at or after `skip`, so from watermark zero it returns
/// every matching entry whatever its age.
pub proof fn lemma_watermark(ps: Seq<PostingView>, field: Seq<u8>, value: Seq<u8>, skip: u64)
    ensures
        forall|i: int|
            0 <= i < matching_keys(ps, field, value, skip).len() ==> recorded_since(
                ps,
                field,
                value,
                #[trigger] matching_keys(ps, field, value, skip)[i],
                skip,
            ),
        forall|j: int|
            0 <= j < ps.len() && (#[trigger] ps[j]).0 == field && ps[j].1 == value && ps[j].3
                >= skip ==> matching_keys(ps, field, value, skip).contains(ps[j].2),
        forall|j: int|
            0 <= j < ps.len() && (#[trigger] ps[j]).0 == field && ps[j].1 == value
                ==> matching_keys(ps, field, value, 0).contains(ps[j].2),
{
    lemma_matching_keys_named(ps, field, value, skip);
    lemma_matching_keys_complete(ps, field, value, skip);
    lemma_matching_keys_complete(ps, field, value, 0);
}

/// Every pair of entry `i` of `es` stands among the facts that rebuilding
/// the index from `es` records, under that entry's key.
proof fn lemma_restored_holds_pairs(es: Seq<(u64, Seq<u8>)>, t: u64, i: int, m: int)
    requires
        restored(es, t) is Some,
        0 <= i < es.len(),
        entry_pairs(es[i].1) matches Some(pairs) && 0 <= m < pairs.len(),
    ensures
        exists|j: int|
            0 <= j < restored(es, t)->Some_0.len() && #[trigger] restored(es, t)->Some_0[j] == (
                entry_pairs(es[i].1)->Some_0[m].0,
                entry_pairs(es[i].1)->Some_0[m].1,
                es[i].0,
                t,
            ),
    decreases es.len(),
{
    let pre = es.drop_last();
    let ps = restored(pre, t)->Some_0;
    let pairs = entry_pairs(es[i].1)->Some_0;
    let target = (pairs[m].0, pairs[m].1, es[i].0, t);
    if i < es.len() - 1 {
        assert(pre[i] == es[i]);
        lemma_restored_holds_pairs(pre, t, i, m);
        let j = choose|j: int| 0 <= j < ps.len() && #[trigger] ps[j] == target;
        assert(restored(es, t)->Some_0[j] == ps[j]);
    } else {
        assert(es.last() == es[i]);
        assert(restored(es, t)->Some_0[ps.len() + m] == target);
    }
}

/// A stored entry is found by each of its pairs: after `before` becomes
/// `after` by storing JSON object `data`, a lookup of any (field, value) pair
/// of `data` from watermark zero returns `data`.
pub proof fn lemma_stored_entry_found(
    before: LogStorage,
    after: LogStorage,
    data: Seq<u8>,
    field: Seq<u8>,
    value: Seq<u8>,
)
    requires
        LogStorage::stored_as(before, after, data),
        entry_pairs(data) matches Some(ps) && ps.contains((field, value)),
    ensures
        after.matching_entries(field, value, 0).contains(data),
{
    let (key, t) = choose|key: u64, t: u64|
        {
            &&& after.stored() == before.stored().insert(key, data)
            &&& after.postings() == before.postings() + postings_for(
                entry_pairs(data).unwrap(),
                key,
                t,
            )
        };
    let ps = entry_pairs(data)->Some_0;
    let m = choose|m: int| 0 <= m < ps.len() && ps[m] == (field, value);
    let j = before.postings().len() + m;
    assert(after.postings()[j] == (field, value, key, t));
    lemma_matching_keys_complete(after.postings(), field, value, 0);
    let mk = matching_keys(after.postings(), field, value, 0);
    assert(mk.contains(key));
    let n = choose|n: int| 0 <= n < mk.len() && mk[n] == key;
    assert(after.matching_entries(field, value, 0)[n] == data);
}

/// A lookup of a pair that no entry ever held returns nothing: an unknown
/// field or value gives an empty result.
pub proof fn lemma_unknown_pair_finds_nothing(
    s: LogStorage,
    field: Seq<u8>,
    value: Seq<u8>,
    skip: u64,
)
    requires
        !has_bucket(s.postings(), field, value),
    ensures
        s.matching_entries(field, value, skip) == Seq::<Seq<u8>>::empty(),
{
    lemma_no_bucket_no_keys(s.postings(), field, value, skip);
    assert(s.matching_entries(field, value, skip) =~= Seq::<Seq<u8>>::empty());
}

/// The watermark law of the engine's lookups: every entry that a lookup of
/// `value` under `field` from watermark `skip` returns is what a key holds
/// that has a fact of that pair recorded at or after `skip`, so an entry
/// whose facts for the pair all predate the watermark is never returned; and
/// the entry of every such fact is returned, so from watermark zero every
/// matching entry is returned whatever its age.
pub proof fn lemma_find_watermark(s: LogStorage, field: Seq<u8>, value: Seq<u8>, skip: u64)
    ensures
        forall|i: int|
            0 <= i < s.matching_entries(field, value, skip).len() ==> s.held_since(
                field,
                value,
                #[trigger] s.matching_entries(field, value, skip)[i],
                skip,
            ),
        forall|j: int|
            0 <= j < s.postings().len() && (#[trigger] s.postings()[j]).0 == field
                && s.postings()[j].1 == value && s.postings()[j].3 >= skip
                ==> s.matching_entries(field, value, skip).contains(s.stored()[s.postings()[j].2]),
{
    let ps = s.postings();
    let mk = matching_keys(ps, field, value, skip);
    let me = s.matching_entries(field, value, skip);
    lemma_matching_keys_named(ps, field, value, skip);
    lemma_matching_keys_complete(ps, field, value, skip);
    assert forall|i: int| 0 <= i < me.len() implies s.held_since(
        field,
        value,
        #[trigger] me[i],
        skip,
    ) by {
        assert(recorded_since(ps, field, value, mk[i], skip));
        let j = choose|j: int|
            0 <= j < ps.len() && #[trigger] ps[j].2 == mk[i] && ps[j].0 == field && ps[j].1
                == value && ps[j].3 >= skip;
        assert(me[i] == s.stored()[mk[i]]);
    }
    assert forall|j: int|
        0 <= j < ps.len() && (#[trigger] ps[j]).0 == field && ps[j].1 == value && ps[j].3
            >= skip implies me.contains(s.stored()[ps[j].2]) by {
        assert(mk.contains(ps[j].2));
        let n = choose|n: int| 0 <= n < mk.len() && mk[n] == ps[j].2;
        assert(me[n] == s.stored()[ps[j].2]);
    }
}

/// A document that is not a JSON object never reaches a lookup: every entry
/// that any lookup returns is a JSON object, and `store_at`, `replicate` and
/// `store` refuse, unchanged, every entry that is not.
pub proof fn lemma_found_entries_are_objects(
    s: LogStorage,
    field: Seq<u8>,
    value: Seq<u8>,
    skip: u64,
)
    requires
        s.wf(),
    ensures
        forall|i: int|
            0 <= i < s.matching_entries(field, value, skip).len() ==> entry_pairs(
                #[trigger] s.matching_entries(field, value, skip)[i],
            ) is Some,
{
    let ps = s.postings();
    let mk = matching_keys(ps, field, value, skip);
    lemma_matching_keys_named(ps, field, value, skip);
    assert forall|i: int| 0 <= i < s.matching_entries(field, value, skip).len() implies entry_pairs(
        #[trigger] s.matching_entries(field, value, skip)[i],
    ) is Some by {
        assert(recorded_since(ps, field, value, mk[i], skip));
        let j = choose|j: int|
            0 <= j < ps.len() && #[trigger] ps[j].2 == mk[i] && ps[j].0 == field && ps[j].1
                == value && ps[j].3 >= skip;
        assert(s.stored().contains_key(ps[j].2));
    }
}

/// An engine built over a filled storage finds every stored entry as if it
/// had just been stored: after the index is rebuilt from the storage, a
/// lookup of any (field, value) pair of stored entry `i` from watermark zero
/// returns that entry.
pub proof fn lemma_restored_entry_found(
    s: LogStorage,
    t: u64,
    i: int,
    field: Seq<u8>,
    value: Seq<u8>,
)
    requires
        s.wf(),
        restored(s.entries(), t) == Some(s.postings()),
        0 <= i < s.entries().len(),
        entry_pairs(s.entries()[i].1) matches Some(ps) && ps.contains((field, value)),
    ensures
        s.matching_entries(field, value, 0).contains(s.entries()[i].1),
{
    let es = s.entries();
    let ps = entry_pairs(es[i].1)->Some_0;
    let m = choose|m: int| 0 <= m < ps.len() && ps[m] == (field, value);
    lemma_restored_holds_pairs(es, t, i, m);
    let j = choose|j: int|
        0 <= j < s.postings().len() && #[trigger] s.postings()[j] == (field, value, es[i].0, t);
    lemma_matching_keys_complete(s.postings(), field, value, 0);
    let mk = matching_keys(s.postings(), field, value, 0);
    assert(mk.contains(es[i].0));
    let n = choose|n: int| 0 <= n < mk.len() && mk[n] == es[i].0;
    assert(es[i].1 == s.stored()[es[i].0]);
    assert(s.matching_entries(field, value, 0)[n] == es[i].1);
}

/// Whether every entry of `es` is a JSON object.
pub open spec fn all_objects(es: Seq<(u64, Seq<u8>)>) -> bool {
    forall|i: int| 0 <= i < es.len() ==> (#[trigger] entry_pairs(es[i].1)) is Some
}

proof fn lemma_restored_some(es: Seq<(u64, Seq<u8>)>, t: u64)
    ensures
        restored(es, t) is Some <==> all_objects(es),
    decreases es.len(),
{
    if es.len() > 0 {
        lemma_restored_some(es.drop_last(), t);
        if all_objects(es) {
            assert forall|i: int| 0 <= i < es.drop_last().len() implies (#[trigger] entry_pairs(
                es.drop_last()[i].1,
            )) is Some by {
                assert(es.drop_last()[i] == es[i]);
            }
            assert(entry_pairs(es[es.len() - 1].1) is Some);
        }
        if restored(es, t) is Some {
            assert forall|i: int| 0 <= i < es.len() implies (#[trigger] entry_pairs(
                es[i].1,
            )) is Some by {
                if i < es.len() - 1 {
                    assert(es.drop_last()[i] == es[i]);
                }
            }
        }
    }
}

/// The log storage engine: entries in a storage, their facts in an index,
/// and a channel on which each newly stored entry is published.
pub struct LogStorage {
    index: NonsenseIndex,
    storage: InMemory,
    lst: Sender<Vec<u8>>,
    published: Ghost<Seq<Seq<u8>>>,
}

impl LogStorage {
    /// The facts of the index, oldest first.
    pub closed spec fn postings(&self) -> Seq<PostingView> {
        self.index.postings()
    }

    /// What each key of the storage holds.
    pub closed spec fn stored(&self) -> Map<u64, Seq<u8>> {
        self.storage.contents()
    }

    /// The entries that the channel took, oldest first.
    pub closed spec fn published(&self) -> Seq<Seq<u8>> {
        self.published@
    }

    /// The entries of the storage, in the order their keys arrived.
    pub closed spec fn entries(&self) -> Seq<(u64, Seq<u8>)> {
        self.storage.entries()
    }

    /// The storage is well formed and every key that the index names is stored.
    closed spec fn keys_stored(&self) -> bool {
        &&& self.storage.wf()
        &&& forall|j: int|
            0 <= j < self.postings().len() ==> #[trigger] self.stored().contains_key(
                self.postings()[j].2,
            )
    }

    /// The storage is well formed, every key that the index names is stored,
    /// and every stored entry is a JSON object.
    pub closed spec fn wf(&self) -> bool {
        &&& self.keys_stored()
        &&& forall|k: u64| #[trigger]
            self.stored().contains_key(k) ==> entry_pairs(self.stored()[k]) is Some
    }

    /// The entries that a lookup of `value` under `field` from watermark
    /// `skip` returns, in the order their facts were recorded.
    pub open spec fn matching_entries(&self, field: Seq<u8>, value: Seq<u8>, skip: u64) -> Seq<
        Seq<u8>,
    > {
        matching_keys(self.postings(), field, value, skip).map_values(|k: u64| self.stored()[k])
    }

    /// Whether some key holding entry `data` has a fact with `value` under
    /// `field` recorded at or after `skip`.
    pub open spec fn held_since(
        &self,
        field: Seq<u8>,
        value: Seq<u8>,
        data: Seq<u8>,
        skip: u64,
    ) -> bool {
        exists|j: int|
            0 <= j < self.postings().len() && self.postings()[j].0 == field
                && self.postings()[j].1 == value && self.postings()[j].3 >= skip
                && self.stored()[#[trigger] self.postings()[j].2] == data
    }

    /// `after` is `before` with entry `data` stored under some key and indexed
    /// at some time.
    pub open spec fn stored_as(before: LogStorage, after: LogStorage, data: Seq<u8>) -> bool {
        exists|key: u64, t: u64|
            {
                &&& after.stored() == before.stored().insert(key, data)
                &&& after.postings() == before.postings() + postings_for(
                    entry_pairs(data).unwrap(),
                    key,
                    t,
                )
            }
    }

    /// An engine over the backends that the two names select, with a fresh
    /// channel; also returns a handle on that channel for subscribers.
    pub fn new(index_name: &str, storage_name: &str) -> (r: Result<
        (LogStorage, Sender<Vec<u8>>),
        EngineError,
    >)
        ensures
            r matches Ok((s, _)) ==> s.wf() && s.postings() == Seq::<PostingView>::empty()
                && s.stored() == Map::<u64, Seq<u8>>::empty() && s.published() == Seq::<
                Seq<u8>,
            >::empty(),
            index_name@ == NONSENSE@ && storage_name@ == IN_MEMORY@ ==> r is Ok,
            storage_name@ == FILE@ ==> (r matches Err(
                EngineError::Storage(StorageError::Unimplemented(n)),
            ) && n@ == FILE@),
            storage_name@ != IN_MEMORY@ && storage_name@ != FILE@ ==> (r matches Err(
                EngineError::Storage(StorageError::UnknownStorageType(n)),
            ) && n@ == storage_name@),
            storage_name@ == IN_MEMORY@ && index_name@ == TANTIVY@ ==> (r matches Err(
                EngineError::Index(IndexError::Unimplemented(n)),
            ) && n@ == index_name@),
            storage_name@ == IN_MEMORY@ && index_name@ != NONSENSE@ && index_name@ != TANTIVY@ ==> (
            r matches Err(EngineError::Index(IndexError::UnknownIndexType(n))) && n@
                == index_name@),
    {
        let storage = match new_storage(storage_name) {
            Ok(s) => s,
            Err(e) => return Err(EngineError::Storage(e)),
        };
        let r = LogStorage::with_storage(index_name, storage);
        proof {
            if r is Ok {
                assert(r->Ok_0.0.entries() =~= Seq::<(u64, Seq<u8>)>::empty());
            }
        }
        r
    }

    /// An engine over storage `storage` and a fresh index of the kind that
    /// `index_name` names, with the index rebuilt from every stored entry.
    /// Fails where the index cannot be built or a stored entry is not a JSON
    /// object.
    pub fn with_storage(index_name: &str, storage: InMemory) -> (r: Result<
        (LogStorage, Sender<Vec<u8>>),
        EngineError,
    >)
        requires
            storage.wf(),
        ensures
            r matches Ok((s, _)) ==> {
                &&& s.wf()
                &&& s.published() == Seq::<Seq<u8>>::empty()
                &&& s.stored() == storage.contents()
                &&& s.entries() == storage.entries()
                &&& exists|t: u64| #[trigger] restored(storage.entries(), t) == Some(s.postings())
            },
            index_name@ == TANTIVY@ ==> (r matches Err(
                EngineError::Index(IndexError::Unimplemented(n)),
            ) && n@ == index_name@),
            index_name@ != NONSENSE@ && index_name@ != TANTIVY@ ==> (r matches Err(
                EngineError::Index(IndexError::UnknownIndexType(n)),
            ) && n@ == index_name@),
            index_name@ == NONSENSE@ && storage.keys().len() == 0 ==> r is Ok,
            !all_objects(storage.entries()) ==> r is Err,
            r is Err && index_name@ == NONSENSE@ && all_objects(storage.entries())
                ==> r matches Err(EngineError::Index(IndexError::Internal(_))),
            r is Err && index_name@ == NONSENSE@ && !all_objects(storage.entries())
                ==> (r matches Err(EngineError::Index(IndexError::DecodeData(_))) || r matches Err(
                EngineError::Index(IndexError::Internal(_)),
            )),
    {
        let index = match new_index(index_name) {
            Ok(ix) => ix,
            Err(e) => return Err(EngineError::Index(e)),
        };
        let lst = open_channel(CHANNEL_CAPACITY);
        let tx = share_channel(&lst);
        let mut s = LogStorage { index, storage, lst, published: Ghost(Seq::empty()) };
        assert(s.keys_stored());
        let ghost es = s.entries();
        let ghost start = s.postings();
        s.restore()?;
        proof {
            let t = choose|t: u64|
                (#[trigger] restored(es, t)) matches Some(ps) && s.postings() == start + ps;
            lemma_restored_some(es, t);
            assert(restored(es, t) is Some);
            assert(all_objects(es));
            assert forall|k: u64| #[trigger]
                s.stored().contains_key(k) implies entry_pairs(s.stored()[k]) is Some by {
                assert(s.storage.keys().contains(k));
                let i = choose|i: int| 0 <= i < s.storage.keys().len() && s.storage.keys()[i] == k;
                assert(es[i] == (k, s.stored()[k]));
                assert(entry_pairs(es[i].1) is Some);
            }
        }
        Ok((s, tx))
    }

    /// Indexes every stored entry at time `t`, in the order of their keys,
    /// into the index; stops at the first entry that is not a JSON object.
    fn restore_at(&mut self, t: u64) -> (r: Result<(), EngineError>)
        requires
            old(self).keys_stored(),
        ensures
            final(self).keys_stored(),
            final(self).stored() == old(self).stored(),
            final(self).entries() == old(self).entries(),
            final(self).published() == old(self).published(),
            match restored(old(self).entries(), t) {
                Some(ps) => r is Ok && final(self).postings() == old(self).postings() + ps,
                None => r matches Err(EngineError::Index(IndexError::DecodeData(_))),
            },
    {
        let entries = match self.storage.list() {
            Ok(es) => es,
            Err(e) => return Err(EngineError::Storage(e)),
        };
        let ghost es = self.entries();
        let ghost start = self.postings();
        let mut i: usize = 0;
        while i < entries.len()
            invariant
                self.keys_stored(),
                self.stored() == old(self).stored(),
                self.published() == old(self).published(),
                self.entries() == es,
                es == old(self).entries(),
                entries@.map_values(|e: (u64, Vec<u8>)| (e.0, e.1@)) == es,
                0 <= i <= entries@.len(),
                restored(es.subrange(0, i as int), t) matches Some(ps) && self.postings() == start
                    + ps,
            decreases entries@.len() - i,
        {
            let ghost prev = self.postings();
            let ghost done = restored(es.subrange(0, i as int), t)->Some_0;
            assert(es.subrange(0, i + 1).drop_last() =~= es.subrange(0, i as int));
            assert(es[i as int] == (entries@[i as int].0, entries@[i as int].1@));
            let pairs = match entry_pairs_of(entries[i].1.as_slice()) {
                Ok(p) => p,
                Err(e) => {
                    proof {
                        lemma_restored_some(es, t);
                        assert(entry_pairs(es[i as int].1) is None);
                    }
                    return Err(EngineError::Index(e));
                },
            };
            self.index.add(entries[i].0, &pairs, t);
            proof {
                assert(self.postings() =~= start + (done + postings_for(
                    pairs_view(pairs),
                    entries@[i as int].0,
                    t,
                )));
                assert(self.storage.contents().contains_key(entries@[i as int].0)) by {
                    assert(self.storage.keys().contains(es[i as int].0)) by {
                        assert(self.storage.keys()[i as int] == es[i as int].0);
                    }
                }
                assert forall|j: int| 0 <= j < self.postings().len() implies #[trigger]
                    self.stored().contains_key(self.postings()[j].2) by {
                    if j >= prev.len() {
                        assert(self.postings()[j].2 == entries@[i as int].0);
                    } else {
                        assert(self.postings()[j] == prev[j]);
                    }
                }
            }
            i = i + 1;
        }
        assert(es.subrange(0, es.len() as int) =~= es);
        Ok(())
    }

    /// Rebuilds the index from every stored entry, recording their facts at
    /// the current time; with nothing stored there is nothing to do.
    fn restore(&mut self) -> (r: Result<(), EngineError>)
        requires
            old(self).keys_stored(),
        ensures
            final(self).keys_stored(),
            final(self).stored() == old(self).stored(),
            final(self).entries() == old(self).entries(),
            final(self).published() == old(self).published(),
            r is Ok ==> exists|t: u64|
                (#[trigger] restored(old(self).entries(), t)) matches Some(ps)
                    && final(self).postings() == old(self).postings() + ps,
            !all_objects(old(self).entries()) ==> r is Err,
            r is Err ==> r matches Err(EngineError::Index(IndexError::DecodeData(_)))
                || r matches Err(EngineError::Index(IndexError::Internal(_))),
            r is Err && all_objects(old(self).entries()) ==> r matches Err(
                EngineError::Index(IndexError::Internal(_)),
            ),
            old(self).entries().len() == 0 ==> r is Ok && final(self).postings() == old(
                self,
            ).postings(),
    {
        if self.storage.len() == 0 {
            proof {
                assert(restored(self.entries(), 0) == Some(Seq::<PostingView>::empty()));
                assert(self.postings() =~= self.postings() + Seq::<PostingView>::empty());
            }
            return Ok(());
        }
        let t = match now_as_nanos_u64() {
            Ok(t) => t,
            Err(e) => return Err(EngineError::Index(IndexError::Internal(e))),
        };
        proof {
            lemma_restored_some(self.entries(), t);
        }
        self.restore_at(t)
    }

    /// Stores entry `data` under `key` and indexes it at time `t`, both or
    /// neither: an entry that is not a JSON object changes nothing.
    pub fn store_at(&mut self, key: Key, data: &[u8], t: u64) -> (r: Result<(), EngineError>)
        requires
            old(self).wf(),
        ensures
            final(self).wf(),
            match entry_pairs(data@) {
                Some(ps) => {
                    &&& r is Ok
                    &&& final(self).stored() == old(self).stored().insert(key, data@)
                    &&& final(self).postings() == old(self).postings() + postings_for(ps, key, t)
                },
                None => {
                    &&& r matches Err(EngineError::Index(IndexError::DecodeData(_)))
                    &&& final(self).stored() == old(self).stored()
                    &&& final(self).postings() == old(self).postings()
                    &&& final(self).entries() == old(self).entries()
                },
            },
            not_an_object(data@) ==> (r matches Err(EngineError::Index(IndexError::DecodeData(m)))
                && m@ == NOT_AN_OBJECT@),
            final(self).published() == old(self).published(),
    {
        let pairs = match entry_pairs_of(data) {
            Ok(p) => p,
            Err(e) => return Err(EngineError::Index(e)),
        };
        let ghost prev = self.postings();
        match self.storage.write(key, data) {
            Ok(()) => {},
            Err(e) => return Err(EngineError::Storage(e)),
        }
        self.index.add(key, &pairs, t);
        proof {
            assert forall|k: u64| #[trigger]
                self.stored().contains_key(k) implies entry_pairs(self.stored()[k]) is Some by {
                if k != key {
                    assert(old(self).stored().contains_key(k));
                }
            }
            assert forall|j: int| 0 <= j < self.postings().len() implies #[trigger]
                self.stored().contains_key(self.postings()[j].2) by {
                if j < prev.len() {
                    assert(self.postings()[j] == prev[j]);
                    assert(old(self).stored().contains_key(prev[j].2));
                }
            }
        }
        Ok(())
    }

    /// Stores entry `data` under a fresh random key and indexes it at the
    /// current time, without publishing it. Keys are 64 random bits and are
    /// not checked against the stored ones: a collision, which is left to
    /// chance, replaces the earlier entry's contents.
    pub fn replicate(&mut self, data: &[u8]) -> (r: Result<(), EngineError>)
        requires
            old(self).wf(),
        ensures
            final(self).wf(),
            r is Ok ==> LogStorage::stored_as(*old(self), *final(self), data@),
            r is Err ==> final(self).stored() == old(self).stored() && final(self).postings()
                == old(self).postings(),
            entry_pairs(data@) is None ==> r matches Err(
                EngineError::Index(IndexError::DecodeData(_)),
            ),
            not_an_object(data@) ==> (r matches Err(EngineError::Index(IndexError::DecodeData(m)))
                && m@ == NOT_AN_OBJECT@),
            r is Err && entry_pairs(data@) is Some ==> r matches Err(
                EngineError::Index(IndexError::Internal(_)),
            ),
            final(self).published() == old(self).published(),
    {
        let t = match now_as_nanos_u64() {
            Ok(t) => t,
            Err(e) => {
                return match entry_pairs_of(data) {
                    Ok(_) => Err(EngineError::Index(IndexError::Internal(e))),
                    Err(d) => Err(EngineError::Index(d)),
                };
            },
        };
        let key = random_key();
        self.store_at(key, data, t)
    }

    /// Stores entry `data` under a fresh random key, indexes it at the
    /// current time, and publishes it on the channel where anyone is
    /// subscribed. A failed publication is reported after the entry is kept.
    pub fn store(&mut self, data: &[u8]) -> (r: Result<(), EngineError>)
        requires
            old(self).wf(),
        ensures
            final(self).wf(),
            r is Ok ==> LogStorage::stored_as(*old(self), *final(self), data@),
            r is Err ==> final(self).stored() == old(self).stored() && final(self).postings()
                == old(self).postings() && final(self).published() == old(self).published(),
            final(self).published() == old(self).published() || (r is Ok
                && final(self).published() == old(self).published().push(data@)),
            entry_pairs(data@) is None ==> {
                &&& r matches Err(EngineError::Index(IndexError::DecodeData(_)))
                &&& final(self).stored() == old(self).stored()
                &&& final(self).postings() == old(self).postings()
            },
            not_an_object(data@) ==> (r matches Err(EngineError::Index(IndexError::DecodeData(m)))
                && m@ == NOT_AN_OBJECT@),
            r is Err && entry_pairs(data@) is Some ==> r matches Err(
                EngineError::Index(IndexError::Internal(_)),
            ),
    {
        self.replicate(data)?;
        let count = subscriber_count(&self.lst);
        self.publish(data, count);
        Ok(())
    }

    /// Hands entry `data` to the channel where `subscribers`, the count just
    /// read, says anyone is listening; the record of published entries gains
    /// `data` where the channel took it. A channel whose last receiver left
    /// meanwhile refuses it: that is no error, as nobody was left to reach.
    fn publish(&mut self, data: &[u8], subscribers: usize)
        requires
            old(self).wf(),
        ensures
            final(self).stored() == old(self).stored(),
            final(self).postings() == old(self).postings(),
            final(self).entries() == old(self).entries(),
            final(self).wf(),
            !has_subscriber(subscribers) ==> final(self).published() == old(self).published(),
            has_subscriber(subscribers) ==> final(self).published() == old(self).published()
                || final(self).published() == old(self).published().push(data@),
    {
        if should_publish(subscribers) {
            if send_entry(&self.lst, vstd::slice::slice_to_vec(data)) {
                self.published = Ghost(self.published@.push(data@));
            }
        }
    }

    /// The entries that match query `field:value` and were indexed at or
    /// after `skip`, split on its first colon; an unknown field or value
    /// gives none, and a query without a colon is refused.
    pub fn find(&self, query: &str, skip: Skip) -> (r: Result<Vec<Vec<u8>>, EngineError>)
        requires
            self.wf(),
        ensures
            match split_query(query.spec_bytes()) {
                None => r matches Err(EngineError::Index(IndexError::QuerySyntax)),
                Some((f, v)) => r matches Ok(es) && es@.map_values(|e: Vec<u8>| e@)
                    == self.matching_entries(f, v, skip),
            },
    {
        let keys = match self.index.find(query, skip) {
            Ok(keys) => keys,
            Err(IndexError::NotFound) => {
                proof {
                    let (f, v) = split_query(query.spec_bytes())->Some_0;
                    lemma_no_bucket_no_keys(self.postings(), f, v, skip);
                }
                return Ok(Vec::new());
            },
            Err(e) => return Err(EngineError::Index(e)),
        };
        let ghost ks = keys@;
        proof {
            let (f, v) = split_query(query.spec_bytes())->Some_0;
            lemma_matching_keys_named(self.postings(), f, v, skip);
            assert forall|j: int| 0 <= j < ks.len() implies #[trigger] self.stored().contains_key(
                ks[j],
            ) by {
                assert(recorded_since(self.postings(), f, v, ks[j], skip));
                let n = choose|n: int|
                    0 <= n < self.postings().len() && #[trigger] self.postings()[n].2 == ks[j]
                        && self.postings()[n].0 == f && self.postings()[n].1 == v
                        && self.postings()[n].3 >= skip;
                assert(self.stored().contains_key(self.postings()[n].2));
            }
        }
        let mut values: Vec<Vec<u8>> = Vec::new();
        let mut i: usize = 0;
        while i < keys.len()
            invariant
                self.wf(),
                ks == keys@,
                forall|j: int| 0 <= j < ks.len() ==> #[trigger] self.stored().contains_key(ks[j]),
                0 <= i <= ks.len(),
                values@.map_values(|e: Vec<u8>| e@) == ks.subrange(0, i as int).map_values(
                    |k: u64| self.stored()[k],
                ),
            decreases ks.len() - i,
        {
            assert(self.stored().contains_key(ks[i as int]));
            let data = match self.storage.read(keys[i]) {
                Ok(d) => d,
                Err(e) => return Err(EngineError::Storage(e)),
            };
            let ghost prev = values@.map_values(|e: Vec<u8>| e@);
            let ghost item = data@;
            values.push(data);
            assert(values@.map_values(|e: Vec<u8>| e@) =~= prev.push(item));
            assert(ks.subrange(0, i + 1).map_values(|k: u64| self.stored()[k]) =~= ks.subrange(
                0,
                i as int,
            ).map_values(|k: u64| self.stored()[k]).push(item));
            i = i + 1;
        }
        assert(ks.subrange(0, ks.len() as int) =~= ks);
        Ok(values)
    }
}

} // verus!
