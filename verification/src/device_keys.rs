//! The prekeys of a device: which are to be made, and which are kept.
use vstd::prelude::*;

use crate::bundle::{BundleView, OneTimePreKey, SignalPreKeyBundle};
use crate::bytes::copy_bytes;
use crate::device;
use crate::device::{
    DeviceError, KeyMaintenanceStatus, RecordsView, RuntimeView, SqliteSignalState, StateView,
    StatusView,
};
use crate::signal;
use crate::table::KeyTable;

verus! {

/// Below this number of one-time prekeys new ones are made.
pub const PREKEY_LOW_WATERMARK: usize = 8;

/// How many one-time prekeys there are after new ones were made.
pub const PREKEY_TARGET: usize = 32;

/// The age at which a signed prekey is replaced.
pub const SIGNED_PREKEY_ROTATION_SECS: u64 = 30 * 24 * 60 * 60;

/// How many signed prekeys are kept.
pub const SIGNED_PREKEY_OVERLAP: usize = 2;

/// What key maintenance did.
#[derive(Clone, Debug, Eq, PartialEq)]
pub struct KeyMaintenanceReport {
    pub one_time_prekeys: usize,
    pub signed_prekeys: usize,
    pub replenished: bool,
    pub rotated: bool,
    pub consecutive_failures: u32,
}

// ---------------------------------------------------------------------------
// Which keys are to be made
// ---------------------------------------------------------------------------

/// Which keys are to be made.
#[derive(Clone, Debug, Eq, PartialEq)]
pub struct KeyPlan {
    /// Whether the first prekey, signed prekey and Kyber prekey are to be made,
    /// each with the number 1.
    pub first_keys: bool,
    /// The numbers of the one-time prekeys that are to be made.
    pub prekey_ids: Vec<u32>,
    /// The number of the signed prekey that is to be made.
    pub signed_prekey_id: Option<u32>,
}

/// The contents of a [`KeyPlan`].
#[verifier::ext_equal]
pub struct PlanView {
    pub first_keys: bool,
    pub prekey_ids: Seq<u32>,
    pub signed_prekey_id: Option<u32>,
}

impl View for KeyPlan {
    type V = PlanView;

    open spec fn view(&self) -> PlanView {
        PlanView {
            first_keys: self.first_keys,
            prekey_ids: self.prekey_ids@,
            signed_prekey_id: self.signed_prekey_id,
        }
    }
}

/// The records that were made for a [`KeyPlan`].
#[derive(Clone, Debug, Eq, PartialEq)]
pub struct NewKeys {
    /// The first prekey, signed prekey and Kyber prekey.
    pub first_keys: Option<(Vec<u8>, Vec<u8>, Vec<u8>)>,
    /// The one-time prekeys, in the order of their numbers.
    pub prekeys: Vec<Vec<u8>>,
    /// The signed prekey.
    pub signed_prekey: Option<Vec<u8>>,
}

/// The contents of [`NewKeys`].
#[verifier::ext_equal]
pub struct KeysView {
    pub first_keys: Option<(Seq<u8>, Seq<u8>, Seq<u8>)>,
    pub prekeys: Seq<Seq<u8>>,
    pub signed_prekey: Option<Seq<u8>>,
}

/// The contents of every record of a list.
pub open spec fn record_views(records: Seq<Vec<u8>>) -> Seq<Seq<u8>> {
    records.map_values(|record: Vec<u8>| record@)
}

impl View for NewKeys {
    type V = KeysView;

    open spec fn view(&self) -> KeysView {
        KeysView {
            first_keys: match self.first_keys {
                Some((prekey, signed, kyber)) => Some((prekey@, signed@, kyber@)),
                None => None,
            },
            prekeys: record_views(self.prekeys@),
            signed_prekey: match self.signed_prekey {
                Some(record) => Some(record@),
                None => None,
            },
        }
    }
}

/// Whether a number is the largest among some, or zero where there are none.
pub open spec fn largest(ids: Set<u32>, id: u32) -> bool {
    if ids == Set::<u32>::empty() {
        id == 0
    } else {
        ids.contains(id) && forall|k: u32| ids.contains(k) ==> k <= id
    }
}

/// The largest number among some, or zero where there are none.
pub open spec fn max_of(ids: Set<u32>) -> u32 {
    choose|id: u32| largest(ids, id)
}

proof fn lemma_max(ids: Set<u32>, id: u32)
    requires
        largest(ids, id),
    ensures
        max_of(ids) == id,
{
    assert(largest(ids, max_of(ids)));
}

/// One more than a number, but never more than the largest there is.
pub open spec fn successor(id: u32) -> u32 {
    if id == u32::MAX {
        id
    } else {
        (id + 1) as u32
    }
}

/// The numbers behind `id`, as many as asked for.
pub open spec fn ids_behind(id: u32, count: nat) -> Seq<u32> {
    Seq::new(count, |i: int| (id + 1 + i) as u32)
}

/// Whether there is no signed prekey or no Kyber prekey yet.
pub open spec fn needs_first_keys(store: RuntimeView) -> bool {
    store.signed_prekeys.dom() == Set::<u32>::empty() || store.kyber_prekeys.dom() == Set::<
        u32,
    >::empty()
}

/// The numbers of the one-time prekeys that there are before new ones are made.
pub open spec fn prekeys_before(store: RuntimeView) -> Set<u32> {
    if needs_first_keys(store) {
        store.prekeys.dom().insert(1)
    } else {
        store.prekeys.dom()
    }
}

/// The numbers of the signed prekeys that there are before a new one is made.
pub open spec fn signed_before(store: RuntimeView) -> Set<u32> {
    if needs_first_keys(store) {
        store.signed_prekeys.dom().insert(1)
    } else {
        store.signed_prekeys.dom()
    }
}

/// Whether the signed prekey is old enough to be replaced.
pub open spec fn rotation_due(created_at: u64, now: u64) -> bool {
    now >= created_at && now - created_at >= SIGNED_PREKEY_ROTATION_SECS
}

/// The keys that are to be made: the first ones if there are none, as many one-time
/// prekeys as bring a low stock up to its target, under the numbers behind the
/// largest one, and a signed prekey if the last one is too old.
pub open spec fn planned(store: RuntimeView, created_at: u64, now: u64) -> PlanView {
    let present = prekeys_before(store);
    PlanView {
        first_keys: needs_first_keys(store),
        prekey_ids: if present.len() < PREKEY_LOW_WATERMARK {
            ids_behind(max_of(present), (PREKEY_TARGET - present.len()) as nat)
        } else {
            Seq::empty()
        },
        signed_prekey_id: if rotation_due(created_at, now) {
            Some(successor(max_of(signed_before(store))))
        } else {
            None
        },
    }
}

/// Whether there are enough numbers behind the largest one for the one-time prekeys
/// that a low stock lacks.
pub open spec fn has_room(store: RuntimeView) -> bool {
    let present = prekeys_before(store);
    present.len() < PREKEY_LOW_WATERMARK ==> max_of(present) + (PREKEY_TARGET - present.len())
        <= u32::MAX
}

/// Whether the records that were made are those that a plan asks for.
pub open spec fn keys_for(keys: KeysView, plan: PlanView) -> bool {
    &&& keys.first_keys is Some == plan.first_keys
    &&& keys.prekeys.len() == plan.prekey_ids.len()
    &&& keys.signed_prekey is Some == plan.signed_prekey_id is Some
}

/// The largest number of a table, or zero.
fn largest_id(table: &KeyTable) -> (id: u32)
    requires
        table.wf(),
    ensures
        largest(table@.dom(), id),
{
    match table.max_id() {
        Some(id) => {
            assert(table@.dom().contains(id));
            id
        },
        None => {
            assert(table@.dom() =~= Set::<u32>::empty());
            0
        },
    }
}

proof fn lemma_rows_nonempty(table: KeyTable)
    requires
        table.wf(),
    ensures
        (table.rows@.len() == 0) == (table@.dom() == Set::<u32>::empty()),
{
    table.lemma_count();
    if table.rows@.len() == 0 {
        assert(table@.dom() =~= Set::<u32>::empty());
    } else {
        assert(table.rows@[0].id == table.rows@[0].id);
        assert(table@.dom().contains(table.rows@[0].id));
    }
}

/// The largest of a table's numbers when the number 1 is added to them.
fn largest_with_first(table: &KeyTable, first: bool) -> (id: u32)
    requires
        table.wf(),
    ensures
        largest(
            if first {
                table@.dom().insert(1)
            } else {
                table@.dom()
            },
            id,
        ),
{
    let id: u32 = largest_id(table);
    if first {
        let ghost ids = table@.dom().insert(1);
        if id == 0 {
            proof {
                assert(ids.contains(1));
                assert forall|k: u32| ids.contains(k) implies k <= 1 by {
                    if k != 1 {
                        assert(table@.dom().contains(k));
                    }
                }
            }
            1
        } else {
            proof {
                assert(ids.contains(id));
                assert forall|k: u32| ids.contains(k) implies k <= id by {
                    if k != 1 {
                        assert(table@.dom().contains(k));
                    }
                }
            }
            id
        }
    } else {
        id
    }
}

impl NewKeys {
    /// Whether the records are those that a plan asks for.
    pub fn fit(&self, plan: &KeyPlan) -> (fits: bool)
        ensures
            fits == keys_for(self@, plan@),
    {
        self.first_keys.is_some() == plan.first_keys && self.prekeys.len() == plan.prekey_ids.len()
            && self.signed_prekey.is_some() == plan.signed_prekey_id.is_some()
    }
}

impl SqliteSignalState {
    /// Whether the first prekey, signed prekey and Kyber prekey are to be made.
    fn lacks_first_keys(&self) -> (first: bool)
        requires
            self.wf(),
        ensures
            first == needs_first_keys(self@.store),
    {
        proof {
            lemma_rows_nonempty(self.store.signed_prekeys);
            lemma_rows_nonempty(self.store.kyber_prekeys);
        }
        self.store.signed_prekeys.rows.len() == 0 || self.store.kyber_prekeys.rows.len() == 0
    }

    /// How many one-time prekeys a low stock lacks, and the largest number before them.
    fn missing_prekeys(&self) -> (missing: Option<(u32, u32)>)
        requires
            self.wf(),
        ensures
            ({
                let present = prekeys_before(self@.store);
                match missing {
                    Some((id, count)) => {
                        &&& present.len() < PREKEY_LOW_WATERMARK
                        &&& id == max_of(present)
                        &&& count == PREKEY_TARGET - present.len()
                    },
                    None => present.len() >= PREKEY_LOW_WATERMARK,
                }
            }),
    {
        proof {
            self.store.prekeys.lemma_count();
        }
        let first = self.lacks_first_keys();
        let ghost present = prekeys_before(self@.store);
        let stock: usize = self.store.prekeys.count();
        let count: usize = if stock < PREKEY_LOW_WATERMARK && first && !self.store.prekeys.has(1) {
            stock + 1
        } else {
            stock
        };
        assert((present.len() < PREKEY_LOW_WATERMARK) == (count < PREKEY_LOW_WATERMARK));
        assert(count < PREKEY_LOW_WATERMARK ==> present.len() == count) by {
            if first && self.store.prekeys@.contains_key(1) {
                assert(present =~= self.store.prekeys@.dom());
            }
        }
        if count >= PREKEY_LOW_WATERMARK {
            return None;
        }
        let id: u32 = largest_with_first(&self.store.prekeys, first);
        proof {
            assert(largest(present, id));
            lemma_max(present, id);
        }
        Some((id, (PREKEY_TARGET - count) as u32))
    }

    /// Whether there are enough numbers for the one-time prekeys that are lacking.
    pub fn prekeys_have_room(&self) -> (room: bool)
        requires
            self.wf(),
        ensures
            room == has_room(self@.store),
    {
        match self.missing_prekeys() {
            None => true,
            Some((id, missing)) => missing <= u32::MAX - id,
        }
    }

    /// Which keys are to be made now. There have to be enough numbers for them.
    pub fn plan_key_inventory(&self, now: u64) -> (plan: KeyPlan)
        requires
            self.wf(),
            has_room(self@.store),
        ensures
            plan@ == planned(self@.store, self@.records.signed_prekey_created_at, now),
    {
        let first = self.lacks_first_keys();
        let mut prekey_ids: Vec<u32> = Vec::new();
        if let Some((id, missing)) = self.missing_prekeys() {
            let mut made: u32 = 0;
            assert(prekey_ids@ =~= ids_behind(id, 0));
            while made < missing
                invariant
                    made <= missing,
                    id + missing <= u32::MAX,
                    prekey_ids@ == ids_behind(id, made as nat),
                decreases missing - made,
            {
                prekey_ids.push(id + 1 + made);
                assert(prekey_ids@ =~= ids_behind(id, (made + 1) as nat));
                made += 1;
            }
        }
        let created_at: u64 = self.records.signed_prekey_created_at;
        let ghost signed = signed_before(self@.store);
        let mut signed_prekey_id: Option<u32> = None;
        if now >= created_at && now - created_at >= SIGNED_PREKEY_ROTATION_SECS {
            let id: u32 = largest_with_first(&self.store.signed_prekeys, first);
            proof {
                assert(largest(signed, id));
                lemma_max(signed, id);
            }
            signed_prekey_id = Some(
                if id == u32::MAX {
                    id
                } else {
                    id + 1
                },
            );
        }
        KeyPlan { first_keys: first, prekey_ids, signed_prekey_id }
    }
}

// ---------------------------------------------------------------------------
// Taking new keys in
// ---------------------------------------------------------------------------

/// A table with records under numbers that follow one another.
pub open spec fn with_records(map: Map<u32, Seq<u8>>, ids: Seq<u32>, records: Seq<Seq<u8>>) -> Map<
    u32,
    Seq<u8>,
>
    decreases ids.len(),
{
    if ids.len() == 0 {
        map
    } else {
        with_records(map, ids.drop_last(), records).insert(ids.last(), records[ids.len() - 1])
    }
}

/// A table with the first key put into it, where one was made.
pub open spec fn with_first(map: Map<u32, Seq<u8>>, record: Option<Seq<u8>>) -> Map<u32, Seq<u8>> {
    match record {
        Some(bytes) => map.insert(1, bytes),
        None => map,
    }
}

/// The first prekey, signed prekey and Kyber prekey, where they were made.
pub open spec fn first_records(keys: KeysView) -> (
    Option<Seq<u8>>,
    Option<Seq<u8>>,
    Option<Seq<u8>>,
) {
    match keys.first_keys {
        Some((prekey, signed, kyber)) => (Some(prekey), Some(signed), Some(kyber)),
        None => (None, None, None),
    }
}

/// The signed prekeys with the new ones among them, before old ones are dropped.
pub open spec fn signed_made(store: RuntimeView, plan: PlanView, keys: KeysView) -> Map<
    u32,
    Seq<u8>,
> {
    let first = with_first(store.signed_prekeys, first_records(keys).1);
    match keys.signed_prekey {
        Some(record) => first.insert(plan.signed_prekey_id->0, record),
        None => first,
    }
}

/// The numbers of the keys that are newer than one.
pub open spec fn newer(all: Map<u32, Seq<u8>>, id: u32) -> Set<u32> {
    all.dom().filter(|k: u32| k > id)
}

/// The newest signed prekeys, as many as are kept at most.
pub open spec fn newest(all: Map<u32, Seq<u8>>) -> Map<u32, Seq<u8>> {
    all.restrict(all.dom().filter(|id: u32| newer(all, id).len() < SIGNED_PREKEY_OVERLAP))
}

/// The keys of a device after those that were made for a plan were taken in.
pub open spec fn store_with_keys(store: RuntimeView, plan: PlanView, keys: KeysView) -> RuntimeView {
    RuntimeView {
        prekeys: with_records(
            with_first(store.prekeys, first_records(keys).0),
            plan.prekey_ids,
            keys.prekeys,
        ),
        signed_prekeys: newest(signed_made(store, plan, keys)),
        kyber_prekeys: with_first(store.kyber_prekeys, first_records(keys).2),
        ..store
    }
}

/// Whether maintenance changes a key.
pub open spec fn keys_changed(store: RuntimeView, plan: PlanView, keys: KeysView) -> bool {
    plan.first_keys || plan.prekey_ids.len() > 0 || plan.signed_prekey_id is Some || signed_made(
        store,
        plan,
        keys,
    ).dom().len() > SIGNED_PREKEY_OVERLAP
}

/// A device after key maintenance: the keys that were made are taken in, the newest
/// signed prekeys are kept, the keys are written down if any changed, and a run of
/// failures is over.
pub open spec fn maintained(d: StateView, keys: KeysView, now: u64) -> StateView {
    let plan = planned(d.store, d.records.signed_prekey_created_at, now);
    let kept = StateView { store: store_with_keys(d.store, plan, keys), ..d };
    let written = if keys_changed(d.store, plan, keys) {
        device::persisted(kept, device::local_address_of(d))
    } else {
        kept
    };
    StateView {
        records: RecordsView {
            signed_prekey_created_at: if plan.signed_prekey_id is Some {
                now
            } else {
                d.records.signed_prekey_created_at
            },
            failures: StatusView { consecutive_failures: 0, ..d.records.failures },
            ..written.records
        },
        ..written
    }
}

/// What is reported of key maintenance.
pub open spec fn maintenance_report(
    before: RuntimeView,
    after: RuntimeView,
    rotated: bool,
) -> KeyMaintenanceReport {
    KeyMaintenanceReport {
        one_time_prekeys: after.prekeys.dom().len() as usize,
        signed_prekeys: after.signed_prekeys.dom().len() as usize,
        replenished: after.prekeys.dom().len() > before.prekeys.dom().len(),
        rotated: rotated || after.signed_prekeys.dom().len() > before.signed_prekeys.dom().len(),
        consecutive_failures: 0,
    }
}

/// Whether `kept` are the newest keys of `all`, as many as are kept at most.
spec fn newest_kept(all: Map<u32, Seq<u8>>, kept: Map<u32, Seq<u8>>) -> bool {
    &&& kept.submap_of(all)
    &&& kept.dom().finite() && all.dom().finite()
    &&& kept.dom().len() == (if all.dom().len() < SIGNED_PREKEY_OVERLAP {
        all.dom().len()
    } else {
        SIGNED_PREKEY_OVERLAP as nat
    })
    &&& forall|old: u32, new: u32|
        all.contains_key(old) && !kept.contains_key(old) && kept.contains_key(new) ==> old < new
}

proof fn lemma_newest(all: Map<u32, Seq<u8>>, kept: Map<u32, Seq<u8>>)
    requires
        newest_kept(all, kept),
    ensures
        kept == newest(all),
{
    assert forall|id: u32| #[trigger] all.dom().contains(id) implies kept.dom().contains(id) == (
    newer(all, id).len() < SIGNED_PREKEY_OVERLAP) by {
        let above = newer(all, id);
        assert(above.subset_of(all.dom()));
        vstd::set_lib::lemma_len_subset(above, all.dom());
        if kept.dom().contains(id) {
            assert forall|k: u32| above.contains(k) implies #[trigger] kept.dom().remove(
                id,
            ).contains(k) by {
                if !kept.contains_key(k) {
                    assert(k < id);
                }
            }
            assert(above.subset_of(kept.dom().remove(id)));
            vstd::set_lib::lemma_len_subset(above, kept.dom().remove(id));
        } else {
            assert forall|k: u32| kept.dom().contains(k) implies #[trigger] above.contains(k) by {
                assert(all.contains_key(k));
            }
            assert(kept.dom().subset_of(above));
            vstd::set_lib::lemma_len_subset(kept.dom(), above);
            if all.dom().len() < SIGNED_PREKEY_OVERLAP {
                assert(kept.dom().subset_of(all.dom().remove(id)));
                vstd::set_lib::lemma_len_subset(kept.dom(), all.dom().remove(id));
            }
        }
    }
    assert(kept =~= newest(all));
}

/// Puts the new one-time prekeys into the table.
fn put_prekeys(table: &mut KeyTable, ids: &Vec<u32>, records: &Vec<Vec<u8>>, Ghost(top): Ghost<u32>)
    requires
        old(table).wf(),
        ids@.len() == records@.len(),
        ids@ == ids_behind(top, ids@.len()),
        ids@.len() > 0 ==> top + ids@.len() <= u32::MAX,
        forall|k: u32| old(table)@.contains_key(k) ==> k <= top,
    ensures
        final(table).wf(),
        final(table)@ == with_records(old(table)@, ids@, record_views(records@)),
        final(table).rows@.len() == old(table).rows@.len() + ids@.len(),
{
    let mut index: usize = 0;
    let ghost views = record_views(records@);
    assert(ids@.take(0) =~= Seq::empty());
    while index < ids.len()
        invariant
            index <= ids@.len(),
            ids@.len() == records@.len(),
            views == record_views(records@),
            ids@ == ids_behind(top, ids@.len()),
            ids@.len() > 0 ==> top + ids@.len() <= u32::MAX,
            table.wf(),
            table@ == with_records(old(table)@, ids@.take(index as int), views),
            table.rows@.len() == old(table).rows@.len() + index,
            forall|k: u32| table@.contains_key(k) ==> k <= top + index,
        decreases ids@.len() - index,
    {
        proof {
            assert(ids@.take(index + 1).drop_last() =~= ids@.take(index as int));
            assert(ids@.take(index + 1).last() == ids@[index as int]);
            assert(ids@[index as int] == top + 1 + index);
            assert(views[index as int] == records@[index as int]@);
        }
        table.put(ids[index], copy_bytes(records[index].as_slice()));
        index += 1;
    }
    assert(ids@.take(index as int) =~= ids@);
}

/// Drops all but the newest signed prekeys, and says whether any was dropped.
fn retain_signed_prekey_overlap(table: &mut KeyTable) -> (dropped: bool)
    requires
        old(table).wf(),
    ensures
        final(table).wf(),
        final(table)@ == newest(old(table)@),
        dropped == (old(table)@.dom().len() > SIGNED_PREKEY_OVERLAP),
        final(table)@.dom().len() == (if dropped {
            SIGNED_PREKEY_OVERLAP as nat
        } else {
            old(table)@.dom().len()
        }),
{
    let ghost all = table@;
    proof {
        table.lemma_count();
    }
    if table.count() <= SIGNED_PREKEY_OVERLAP {
        proof {
            assert(newest_kept(all, all));
            lemma_newest(all, all);
        }
        return false;
    }
    while table.rows.len() > SIGNED_PREKEY_OVERLAP
        invariant
            table.wf(),
            table.rows@.len() >= SIGNED_PREKEY_OVERLAP,
            table@.submap_of(all),
            forall|old: u32, new: u32|
                all.contains_key(old) && !table@.contains_key(old) && table@.contains_key(new)
                    ==> old < new,
        decreases table.rows@.len(),
    {
        let ghost before = table@;
        let removed: u32 = table.remove_min();
        proof {
            assert forall|old: u32, new: u32|
                all.contains_key(old) && !table@.contains_key(old) && table@.contains_key(
                    new,
                ) implies old < new by {
                assert(before.contains_key(new));
                if old == removed {
                    assert(old <= new);
                } else {
                    assert(!before.contains_key(old));
                }
            }
        }
    }
    proof {
        table.lemma_count();
        lemma_newest(all, table@);
    }
    true
}

/// The public parts of the keys that a bundle holds.
#[derive(Clone, Debug)]
pub struct PublicKeys {
    pub prekey: Vec<u8>,
    pub signed_prekey: Vec<u8>,
    pub signed_prekey_signature: Vec<u8>,
    pub kyber_prekey: Vec<u8>,
    pub kyber_prekey_signature: Vec<u8>,
    pub identity: Vec<u8>,
}

/// The bundle of a device, made of keys with these numbers.
pub open spec fn exported(d: StateView, ids: (u32, u32, u32), keys: PublicKeys) -> BundleView {
    BundleView {
        name: d.name,
        device_id: d.device_id,
        registration_id: d.records.registration_id,
        pre_key: Some((ids.0, keys.prekey@)),
        signed_pre_key_id: ids.1,
        signed_pre_key_public: keys.signed_prekey@,
        signed_pre_key_signature: keys.signed_prekey_signature@,
        kyber_pre_key_id: ids.2,
        kyber_pre_key_public: keys.kyber_prekey@,
        kyber_pre_key_signature: keys.kyber_prekey_signature@,
        identity_key: keys.identity@,
    }
}

impl SqliteSignalState {
    /// Takes in the keys that were made for a plan, keeps the newest signed
    /// prekeys, writes the keys down if any changed, and ends a run of failures.
    /// Afterwards a low stock of one-time prekeys has reached its target, and there
    /// are a signed prekey, no more of them than are kept, and a Kyber prekey. Says too
    /// whether a key has changed.
    pub fn take_keys(&mut self, plan: &KeyPlan, keys: NewKeys, now: u64) -> (taken: (
        KeyMaintenanceReport,
        bool,
    ))
        requires
            old(self).wf(),
            has_room(old(self)@.store),
            plan@ == planned(old(self)@.store, old(self)@.records.signed_prekey_created_at, now),
            keys_for(keys@, plan@),
        ensures
            final(self).wf(),
            final(self)@ == maintained(old(self)@, keys@, now),
            taken.0 == maintenance_report(
                old(self)@.store,
                final(self)@.store,
                plan@.signed_prekey_id is Some,
            ),
            taken.1 == keys_changed(old(self)@.store, plan@, keys@),
            final(self)@.store.prekeys.dom().len() == (if prekeys_before(old(self)@.store).len()
                < PREKEY_LOW_WATERMARK {
                PREKEY_TARGET as nat
            } else {
                prekeys_before(old(self)@.store).len()
            }),
            1 <= final(self)@.store.signed_prekeys.dom().len() <= SIGNED_PREKEY_OVERLAP,
            final(self)@.store.kyber_prekeys.dom().len() >= 1,
    {
        let before_prekeys: usize = self.store.prekeys.count();
        let before_signed: usize = self.store.signed_prekeys.count();
        let ghost start = self.store;
        let ghost present = prekeys_before(start@);
        proof {
            self.store.prekeys.lemma_count();
            self.store.signed_prekeys.lemma_count();
            self.store.kyber_prekeys.lemma_count();
            assert(plan.prekey_ids@ == plan@.prekey_ids);
        }
        let mut changed = plan.first_keys || plan.prekey_ids.len() > 0
            || plan.signed_prekey_id.is_some();
        if let Some(first) = &keys.first_keys {
            self.store.prekeys.put(1, copy_bytes(first.0.as_slice()));
            self.store.signed_prekeys.put(1, copy_bytes(first.1.as_slice()));
            self.store.kyber_prekeys.put(1, copy_bytes(first.2.as_slice()));
        }
        let ghost top: u32 = if present.len() < PREKEY_LOW_WATERMARK {
            max_of(present)
        } else {
            u32::MAX
        };
        proof {
            self.store.prekeys.lemma_count();
            assert(self.store.prekeys@.dom() =~= present);
            if present.len() < PREKEY_LOW_WATERMARK {
                lemma_largest_exists(self.store.prekeys);
                assert(largest(present, top));
                assert forall|k: u32| self.store.prekeys@.contains_key(k) implies k <= top by {
                    assert(present.contains(k));
                }
            } else {
                assert(plan.prekey_ids@ =~= ids_behind(top, 0));
            }
        }
        put_prekeys(&mut self.store.prekeys, &plan.prekey_ids, &keys.prekeys, Ghost(top));
        proof {
            self.store.prekeys.lemma_count();
        }
        if let Some(record) = &keys.signed_prekey {
            if let Some(id) = plan.signed_prekey_id {
                self.store.signed_prekeys.put(id, copy_bytes(record.as_slice()));
            }
        }
        let ghost made = self.store.signed_prekeys@;
        proof {
            assert(made == signed_made(start@, plan@, keys@));
            self.store.signed_prekeys.lemma_count();
            self.store.kyber_prekeys.lemma_count();
            lemma_rows_nonempty(self.store.signed_prekeys);
            lemma_rows_nonempty(self.store.kyber_prekeys);
            if plan.first_keys {
                assert(made.contains_key(1));
                assert(made.dom().contains(1));
                assert(self.store.kyber_prekeys@.dom().contains(1));
            } else {
                lemma_rows_nonempty(start.signed_prekeys);
                assert(start.signed_prekeys.rows@.len() > 0);
                let k = start.signed_prekeys.rows@[0].id;
                assert(start.signed_prekeys.rows@[0].id == k);
                assert(start.signed_prekeys@.dom().contains(k));
                assert(made.dom().contains(k));
            }
            assert(made.dom() != Set::<u32>::empty());
            assert(self.store.kyber_prekeys@.dom() != Set::<u32>::empty());
        }
        let dropped = retain_signed_prekey_overlap(&mut self.store.signed_prekeys);
        proof {
            self.store.signed_prekeys.lemma_count();
            assert(self.store@ == store_with_keys(start@, plan@, keys@));
        }
        if dropped {
            changed = true;
        }
        if changed {
            let local = self.local_address();
            self.persist_peer(local.as_str());
        }
        if plan.signed_prekey_id.is_some() {
            self.records.signed_prekey_created_at = now;
        }
        self.records.failures.consecutive_failures = 0;
        let one_time_prekeys: usize = self.store.prekeys.count();
        let signed_prekeys: usize = self.store.signed_prekeys.count();
        let report = KeyMaintenanceReport {
            one_time_prekeys,
            signed_prekeys,
            replenished: one_time_prekeys > before_prekeys,
            rotated: plan.signed_prekey_id.is_some() || signed_prekeys > before_signed,
            consecutive_failures: 0,
        };
        (report, changed)
    }

    /// Notes that key maintenance failed.
    pub fn record_maintenance_failure(&mut self, error: &str, now: u64)
        requires
            old(self).wf(),
        ensures
            final(self).wf(),
            final(self)@ == failed(old(self)@, error@, now),
    {
        let consecutive_failures: u32 = self.records.failures.consecutive_failures.saturating_add(
            1,
        );
        let total_failures: u64 = self.records.failures.total_failures.saturating_add(1);
        self.records.failures = KeyMaintenanceStatus {
            consecutive_failures,
            total_failures,
            last_error: Some(error.to_owned()),
            last_failed_at: Some(now),
        };
    }

    /// How key maintenance has gone so far.
    pub fn key_maintenance_status(&self) -> (status: &KeyMaintenanceStatus)
        ensures
            *status == self.records.failures,
            status@ == self@.records.failures,
    {
        &self.records.failures
    }

    /// The public bundle of the device, made of keys with these numbers.
    pub fn export_bundle(&self, ids: (u32, u32, u32), keys: PublicKeys) -> (bundle:
        SignalPreKeyBundle)
        ensures
            bundle@ == exported(self@, ids, keys),
    {
        SignalPreKeyBundle {
            name: self.local_name.as_str().to_owned(),
            device_id: self.local_device_id,
            registration_id: self.records.registration_id,
            pre_key: Some(OneTimePreKey { id: ids.0, public_key: keys.prekey }),
            signed_pre_key_id: ids.1,
            signed_pre_key_public: keys.signed_prekey,
            signed_pre_key_signature: keys.signed_prekey_signature,
            kyber_pre_key_id: ids.2,
            kyber_pre_key_public: keys.kyber_prekey,
            kyber_pre_key_signature: keys.kyber_prekey_signature,
            identity_key: keys.identity,
        }
    }

    /// The numbers of the keys that an exported bundle holds: one of the one-time
    /// prekeys, the newest signed prekey and the newest Kyber prekey.
    pub fn bundle_key_ids(&self) -> (result: Result<(u32, u32, u32), DeviceError>)
        requires
            self.wf(),
        ensures
            match result {
                Ok((prekey, signed, kyber)) => {
                    &&& self@.store.prekeys.contains_key(prekey)
                    &&& self@.store.signed_prekeys.contains_key(signed) && signed == max_of(
                        self@.store.signed_prekeys.dom(),
                    )
                    &&& self@.store.kyber_prekeys.contains_key(kyber) && kyber == max_of(
                        self@.store.kyber_prekeys.dom(),
                    )
                },
                Err(error) => error == (if self@.store.prekeys.dom() == Set::<u32>::empty() {
                    DeviceError::NoPrekey
                } else if self@.store.signed_prekeys.dom() == Set::<u32>::empty() {
                    DeviceError::NoSignedPrekey
                } else {
                    DeviceError::NoKyberPrekey
                }),
            },
            result is Err <==> self@.store.prekeys.dom() == Set::<u32>::empty()
                || self@.store.signed_prekeys.dom() == Set::<u32>::empty()
                || self@.store.kyber_prekeys.dom() == Set::<u32>::empty(),
    {
        proof {
            lemma_rows_nonempty(self.store.prekeys);
            lemma_rows_nonempty(self.store.signed_prekeys);
            lemma_rows_nonempty(self.store.kyber_prekeys);
        }
        if self.store.prekeys.rows.len() == 0 {
            return Err(DeviceError::NoPrekey);
        }
        let prekey: u32 = self.store.prekeys.rows[0].id;
        assert(self.store.prekeys.rows@[0].id == prekey);
        if self.store.signed_prekeys.rows.len() == 0 {
            return Err(DeviceError::NoSignedPrekey);
        }
        let signed: u32 = largest_id(&self.store.signed_prekeys);
        if self.store.kyber_prekeys.rows.len() == 0 {
            return Err(DeviceError::NoKyberPrekey);
        }
        let kyber: u32 = largest_id(&self.store.kyber_prekeys);
        proof {
            lemma_max(self.store.signed_prekeys@.dom(), signed);
            lemma_max(self.store.kyber_prekeys@.dom(), kyber);
        }
        Ok((prekey, signed, kyber))
    }
}

/// A device that has noted that key maintenance failed.
pub open spec fn failed(d: StateView, error: Seq<char>, now: u64) -> StateView {
    let failures = d.records.failures;
    StateView {
        records: RecordsView {
            failures: StatusView {
                consecutive_failures: if failures.consecutive_failures == u32::MAX {
                    u32::MAX
                } else {
                    (failures.consecutive_failures + 1) as u32
                },
                total_failures: if failures.total_failures == u64::MAX {
                    u64::MAX
                } else {
                    (failures.total_failures + 1) as u64
                },
                last_error: Some(error),
                last_failed_at: Some(now),
            },
            ..d.records
        },
        ..d
    }
}

/// Keys that are up to date are left alone: where nothing is missing and no signed
/// prekey is due, maintenance asks for no key.
pub proof fn law_full_inventory_needs_no_keys(store: RuntimeView, created_at: u64, now: u64)
    requires
        !needs_first_keys(store),
        store.prekeys.dom().len() >= PREKEY_LOW_WATERMARK,
        now < created_at + SIGNED_PREKEY_ROTATION_SECS,
    ensures
        planned(store, created_at, now) == (PlanView {
            first_keys: false,
            prekey_ids: Seq::empty(),
            signed_prekey_id: None,
        }),
{
}

/// Failures are counted until maintenance succeeds, which ends the run but keeps the
/// total and the last error.
pub proof fn law_success_ends_failures(
    d: StateView,
    error: Seq<char>,
    at: u64,
    keys: KeysView,
    now: u64,
)
    requires
        d.records.failures.consecutive_failures < u32::MAX,
        d.records.failures.total_failures < u64::MAX,
    ensures
        ({
            let counted = failed(d, error, at).records.failures;
            let cleared = maintained(failed(d, error, at), keys, now).records.failures;
            &&& counted.consecutive_failures == d.records.failures.consecutive_failures + 1
            &&& cleared.consecutive_failures == 0
            &&& cleared.total_failures == d.records.failures.total_failures + 1
            &&& cleared.last_error == Some(error)
        }),
{
}

proof fn lemma_largest_exists(table: KeyTable)
    requires
        table.wf(),
    ensures
        largest(table@.dom(), max_of(table@.dom())),
{
    table.lemma_count();
    lemma_max_exists(table@.dom());
}

proof fn lemma_max_exists(ids: Set<u32>)
    requires
        ids.finite(),
    ensures
        exists|id: u32| largest(ids, id),
    decreases ids.len(),
{
    if ids == Set::<u32>::empty() {
        assert(largest(ids, 0));
    } else {
        if forall|k: u32| !ids.contains(k) {
            assert(ids =~= Set::<u32>::empty());
        }
        let some = choose|k: u32| ids.contains(k);
        let rest = ids.remove(some);
        lemma_max_exists(rest);
        let id = choose|id: u32| largest(rest, id);
        let top = if rest != Set::<u32>::empty() && id > some {
            id
        } else {
            some
        };
        assert forall|k: u32| ids.contains(k) implies k <= top by {
            if k != some {
                assert(rest.contains(k));
            }
        }
        assert(largest(ids, top));
    }
}

// ---------------------------------------------------------------------------
// What the inventory looks like
// ---------------------------------------------------------------------------

/// The numbers of new prekeys are above every number in use, follow one another and
/// bring the stock to its target. They are asked for exactly where the stock, with the
/// first prekey where that is due, is below the watermark.
pub proof fn law_new_prekeys_get_fresh_numbers(store: RuntimeView, created_at: u64, now: u64)
    requires
        store.prekeys.dom().finite(),
        has_room(store),
    ensures
        ({
            let plan = planned(store, created_at, now);
            let first = store.signed_prekeys.dom() == Set::<u32>::empty()
                || store.kyber_prekeys.dom() == Set::<u32>::empty();
            let stock = if first && !store.prekeys.contains_key(1) {
                store.prekeys.dom().len() + 1
            } else {
                store.prekeys.dom().len()
            };
            &&& plan.first_keys == first
            &&& plan.prekey_ids.len() == if stock < 8 {
                32 - stock
            } else {
                0
            }
            &&& forall|i: int, id: u32|
                0 <= i < plan.prekey_ids.len() && store.prekeys.contains_key(id) ==> id < (
                #[trigger] plan.prekey_ids[i]) && #[trigger] store.prekeys.dom().contains(id)
            &&& forall|i: int|
                0 <= i < plan.prekey_ids.len() && first ==> 1 < #[trigger] plan.prekey_ids[i]
            &&& forall|i: int, j: int|
                0 <= i < j < plan.prekey_ids.len() ==> (#[trigger] plan.prekey_ids[j])
                    - #[trigger] plan.prekey_ids[i] == j - i
        }),
{
    let present = prekeys_before(store);
    let plan = planned(store, created_at, now);
    assert(present.finite());
    lemma_max_exists(present);
    let top = max_of(present);
    if needs_first_keys(store) && store.prekeys.contains_key(1) {
        assert(present =~= store.prekeys.dom());
    }
    if plan.prekey_ids.len() > 0 {
        assert forall|i: int| 0 <= i < plan.prekey_ids.len() implies #[trigger] plan.prekey_ids[i]
            == top + 1 + i by {}
        assert forall|i: int, id: u32|
            0 <= i < plan.prekey_ids.len() && store.prekeys.contains_key(id) implies id < (
        #[trigger] plan.prekey_ids[i]) && #[trigger] store.prekeys.dom().contains(id) by {
            assert(present.contains(id));
        }
        if needs_first_keys(store) {
            assert(present.contains(1));
        }
    }
}

/// A signed prekey is due thirty days after the last one and not before. Its number is
/// above every number in use, unless none is left above.
pub proof fn law_signed_prekey_is_due_after_thirty_days(
    store: RuntimeView,
    created_at: u64,
    now: u64,
)
    requires
        store.signed_prekeys.dom().finite(),
    ensures
        planned(store, created_at, now).signed_prekey_id is Some <==> now - created_at >= 2_592_000,
        planned(store, created_at, now).signed_prekey_id matches Some(id) ==> forall|used: u32|
            #[trigger] store.signed_prekeys.contains_key(used) ==> used < id || id == u32::MAX,
        planned(store, created_at, now).signed_prekey_id matches Some(id) ==> (forall|used: u32|
            store.signed_prekeys.contains_key(used) ==> used < 0xffff_ffff) ==> id == 1 || id == 2
            || store.signed_prekeys.contains_key((id - 1) as u32),
{
    let ids = signed_before(store);
    assert(ids.finite());
    lemma_max_exists(ids);
    let top = max_of(ids);
    assert forall|used: u32| #[trigger] store.signed_prekeys.contains_key(used) implies used
        <= top by {
        assert(ids.contains(used));
    }
    if ids != Set::<u32>::empty() && top != u32::MAX {
        assert(ids.contains(top));
    }
}

/// Records that are put under numbers are found under them, and what was there under
/// other numbers stays.
proof fn lemma_with_records(map: Map<u32, Seq<u8>>, ids: Seq<u32>, records: Seq<Seq<u8>>)
    requires
        ids.len() <= records.len(),
        forall|i: int, j: int|
            0 <= i < j < ids.len() ==> #[trigger] ids[i] != #[trigger] ids[j],
    ensures
        forall|i: int|
            0 <= i < ids.len() ==> with_records(map, ids, records).contains_key(
                #[trigger] ids[i],
            ) && with_records(map, ids, records)[ids[i]] == records[i],
        forall|id: u32|
            map.contains_key(id) && !ids.contains(id) ==> #[trigger] with_records(
                map,
                ids,
                records,
            ).contains_key(id) && with_records(map, ids, records)[id] == map[id],
        forall|id: u32| #[trigger]
            with_records(map, ids, records).contains_key(id) ==> map.contains_key(id)
                || ids.contains(id),
    decreases ids.len(),
{
    if ids.len() > 0 {
        let front = ids.drop_last();
        assert forall|i: int, j: int| 0 <= i < j < front.len() implies #[trigger] front[i]
            != #[trigger] front[j] by {
            assert(front[i] == ids[i] && front[j] == ids[j]);
        }
        lemma_with_records(map, front, records);
        let all = with_records(map, ids, records);
        assert forall|i: int| 0 <= i < ids.len() implies all.contains_key(#[trigger] ids[i])
            && all[ids[i]] == records[i] by {
            if i < front.len() {
                assert(front[i] == ids[i]);
                assert(ids[i] != ids[ids.len() - 1]);
            }
        }
        assert forall|id: u32| map.contains_key(id) && !ids.contains(id) implies
            #[trigger] all.contains_key(id) && all[id] == map[id] by {
            assert(ids[ids.len() - 1] != id);
            if front.contains(id) {
                let i = choose|i: int| 0 <= i < front.len() && front[i] == id;
                assert(ids[i] == id);
            }
            assert(with_records(map, front, records).contains_key(id));
        }
        assert forall|id: u32| #[trigger] all.contains_key(id) implies map.contains_key(id)
            || ids.contains(id) by {
            if id == ids[ids.len() - 1] {
                assert(ids.contains(id));
            } else {
                assert(with_records(map, front, records).contains_key(id));
                if front.contains(id) {
                    let i = choose|i: int| 0 <= i < front.len() && front[i] == id;
                    assert(ids[i] == id);
                }
            }
        }
    }
}

/// Taking new keys keeps every prekey that was there, puts each new one under its
/// number, and forgets no peer. What the runtime holds of sessions and identities
/// stays, and what is written of every peer but the device itself stays too.
pub proof fn law_new_keys_are_added(d: StateView, keys: KeysView, now: u64)
    requires
        d.store.prekeys.dom().finite(),
        has_room(d.store),
        keys_for(keys, planned(d.store, d.records.signed_prekey_created_at, now)),
    ensures
        ({
            let plan = planned(d.store, d.records.signed_prekey_created_at, now);
            let after = maintained(d, keys, now);
            &&& forall|i: int|
                0 <= i < plan.prekey_ids.len() ==> after.store.prekeys.contains_key(
                    #[trigger] plan.prekey_ids[i],
                ) && after.store.prekeys[plan.prekey_ids[i]] == keys.prekeys[i]
            &&& forall|id: u32|
                d.store.prekeys.contains_key(id) && !(plan.first_keys && id == 1)
                    ==> #[trigger] after.store.prekeys.contains_key(id) && after.store.prekeys[id]
                    == d.store.prekeys[id]
            &&& plan.first_keys ==> {
                &&& after.store.prekeys.contains_key(1)
                &&& after.store.prekeys[1] == (keys.first_keys->0).0
                &&& after.store.kyber_prekeys.contains_key(1)
                &&& after.store.kyber_prekeys[1] == (keys.first_keys->0).2
            }
            &&& forall|id: u32|
                d.store.kyber_prekeys.contains_key(id) && !(plan.first_keys && id == 1)
                    ==> #[trigger] after.store.kyber_prekeys.contains_key(id)
                    && after.store.kyber_prekeys[id] == d.store.kyber_prekeys[id]
            &&& after.store.sessions == d.store.sessions
            &&& after.store.identities == d.store.identities
            &&& device::alike_but_for(
                after.records,
                d.records,
                signal::address_text(d.name, d.device_id),
            )
            &&& after.records.revocations == d.records.revocations
            &&& after.records.recoveries == d.records.recoveries
            &&& after.records.signed_prekey_created_at == if now
                - d.records.signed_prekey_created_at >= 2_592_000 {
                now
            } else {
                d.records.signed_prekey_created_at
            }
            &&& after.name == d.name
            &&& after.device_id == d.device_id
        }),
{
    let plan = planned(d.store, d.records.signed_prekey_created_at, now);
    let first = with_first(d.store.prekeys, first_records(keys).0);
    let after = maintained(d, keys, now);
    let local = signal::address_text(d.name, d.device_id);
    law_new_prekeys_get_fresh_numbers(d.store, d.records.signed_prekey_created_at, now);
    assert forall|i: int, j: int| 0 <= i < j < plan.prekey_ids.len() implies
        #[trigger] plan.prekey_ids[i] != #[trigger] plan.prekey_ids[j] by {
        assert(plan.prekey_ids[j] - plan.prekey_ids[i] == j - i);
    }
    lemma_with_records(first, plan.prekey_ids, keys.prekeys);
    assert(after.store.prekeys == with_records(first, plan.prekey_ids, keys.prekeys));
    assert forall|id: u32|
        d.store.prekeys.contains_key(id) && !(plan.first_keys && id == 1) implies
        #[trigger] after.store.prekeys.contains_key(id) && after.store.prekeys[id]
        == d.store.prekeys[id] by {
        assert(d.store.prekeys.dom().contains(id));
        if plan.prekey_ids.contains(id) {
            let i = choose|i: int| 0 <= i < plan.prekey_ids.len() && plan.prekey_ids[i] == id;
            assert(id < plan.prekey_ids[i]);
        }
        assert(first.contains_key(id) && first[id] == d.store.prekeys[id]);
        assert(with_records(first, plan.prekey_ids, keys.prekeys).contains_key(id));
    }
    if plan.first_keys {
        assert(first.contains_key(1));
        assert(with_records(first, plan.prekey_ids, keys.prekeys).contains_key(1));
        if plan.prekey_ids.contains(1) {
            let i = choose|i: int| 0 <= i < plan.prekey_ids.len() && plan.prekey_ids[i] == 1;
            assert(1 < plan.prekey_ids[i]);
        }
    }
    let kept = StateView { store: store_with_keys(d.store, plan, keys), ..d };
    device::law_persisting_touches_one_peer(kept, local);
}

/// Of the signed prekeys no more than two are kept, and none is dropped while an older
/// one is kept. One that is kept has the record that it had.
pub proof fn law_newest_signed_prekeys_are_kept(all: Map<u32, Seq<u8>>, old: u32, new: u32)
    requires
        all.dom().finite(),
    ensures
        newest(all).contains_key(new) ==> all.contains_key(new) && newest(all)[new] == all[new],
        all.contains_key(old) && all.contains_key(new) && old < new && newest(all).contains_key(old)
            ==> newest(all).contains_key(new),
        all.dom().len() <= 2 && all.contains_key(new) ==> newest(all).contains_key(new),
        all.contains_key(new) && (forall|id: u32| #[trigger] all.contains_key(id) ==> id <= new)
            ==> newest(all).contains_key(new),
        all.contains_key(old) && all.contains_key(new) && old < new && (forall|id: u32| #[trigger]
            all.contains_key(id) && id > old ==> id == new) ==> newest(all).contains_key(old),
{
    let above_old = newer(all, old);
    let above_new = newer(all, new);
    assert(above_old.subset_of(all.dom()));
    assert(above_new.subset_of(all.dom()));
    vstd::set_lib::lemma_len_subset(above_old, all.dom());
    vstd::set_lib::lemma_len_subset(above_new, all.dom());
    if old < new {
        assert(above_new.subset_of(above_old));
        vstd::set_lib::lemma_len_subset(above_new, above_old);
    }
    if all.contains_key(new) {
        assert(above_new.subset_of(all.dom().remove(new)));
        vstd::set_lib::lemma_len_subset(above_new, all.dom().remove(new));
    }
    if all.contains_key(new) && (forall|id: u32| #[trigger] all.contains_key(id) ==> id <= new) {
        assert forall|id: u32| !above_new.contains(id) by {
            if all.contains_key(id) {
                assert(id <= new);
            }
        }
        assert(above_new =~= Set::<u32>::empty());
    }
    if all.contains_key(old) && all.contains_key(new) && old < new && (forall|id: u32| #[trigger]
        all.contains_key(id) && id > old ==> id == new) {
        assert(above_old =~= Set::<u32>::empty().insert(new)) by {
            assert forall|id: u32| above_old.contains(id) implies id == new by {
                assert(all.contains_key(id));
            }
        }
    }
}

/// A signed prekey with two newer ones is dropped.
pub proof fn law_old_signed_prekeys_are_dropped(
    all: Map<u32, Seq<u8>>,
    old: u32,
    newer_one: u32,
    newest_one: u32,
)
    requires
        all.dom().finite(),
        old < newer_one < newest_one,
        all.contains_key(newer_one),
        all.contains_key(newest_one),
    ensures
        !newest(all).contains_key(old),
{
    let above = newer(all, old);
    let two = Set::<u32>::empty().insert(newer_one).insert(newest_one);
    assert(two.subset_of(above));
    assert(above.subset_of(all.dom()));
    vstd::set_lib::lemma_len_subset(above, all.dom());
    vstd::set_lib::lemma_len_subset(two, above);
}

/// The signed prekeys after new keys were taken are the newest of those that were there
/// and those that were made: what is held was held before, is the first one, or is the
/// one that was due.
pub proof fn law_signed_prekeys_come_from_somewhere(d: StateView, keys: KeysView, now: u64, id: u32)
    requires
        keys_for(keys, planned(d.store, d.records.signed_prekey_created_at, now)),
        maintained(d, keys, now).store.signed_prekeys.contains_key(id),
    ensures
        ({
            let plan = planned(d.store, d.records.signed_prekey_created_at, now);
            let record = maintained(d, keys, now).store.signed_prekeys[id];
            ||| plan.signed_prekey_id == Some(id) && keys.signed_prekey == Some(record)
            ||| plan.first_keys && id == 1 && record == (keys.first_keys->0).1
            ||| d.store.signed_prekeys.contains_key(id) && record == d.store.signed_prekeys[id]
        }),
{
}

/// A bundle that a device exports carries its own address and registration, and each
/// key under the number that it has.
pub proof fn law_exported_bundle_is_the_devices(d: StateView, ids: (u32, u32, u32), keys: PublicKeys)
    ensures
        exported(d, ids, keys).name == d.name,
        exported(d, ids, keys).device_id == d.device_id,
        exported(d, ids, keys).registration_id == d.records.registration_id,
        exported(d, ids, keys).identity_key == keys.identity@,
        exported(d, ids, keys).pre_key == Some((ids.0, keys.prekey@)),
        exported(d, ids, keys).signed_pre_key_id == ids.1,
        exported(d, ids, keys).signed_pre_key_public == keys.signed_prekey@,
        exported(d, ids, keys).signed_pre_key_signature == keys.signed_prekey_signature@,
        exported(d, ids, keys).kyber_pre_key_id == ids.2,
        exported(d, ids, keys).kyber_pre_key_public == keys.kyber_prekey@,
        exported(d, ids, keys).kyber_pre_key_signature == keys.kyber_prekey_signature@,
{
}

/// A failure that is counted says what failed and when, and touches nothing else.
pub proof fn law_failure_is_all_that_is_written(d: StateView, error: Seq<char>, now: u64)
    ensures
        failed(d, error, now).store == d.store,
        failed(d, error, now).records == (RecordsView {
            failures: failed(d, error, now).records.failures,
            ..d.records
        }),
        failed(d, error, now).records.failures.last_error == Some(error),
        failed(d, error, now).records.failures.last_failed_at == Some(now),
        failed(d, error, now).records.failures.consecutive_failures
            >= d.records.failures.consecutive_failures,
        d.records.failures.consecutive_failures < u32::MAX ==> failed(
            d,
            error,
            now,
        ).records.failures.consecutive_failures == d.records.failures.consecutive_failures + 1,
        d.records.failures.total_failures < u64::MAX ==> failed(
            d,
            error,
            now,
        ).records.failures.total_failures == d.records.failures.total_failures + 1,
{
}

/// Keys are written down where the first ones were made, where prekeys were added, where
/// the signed prekey was renewed, or where more than the newest signed prekeys were
/// there. Otherwise nothing has changed.
pub proof fn law_changed_keys_are_noticed(store: RuntimeView, plan: PlanView, keys: KeysView)
    ensures
        plan.prekey_ids.len() >= 1 ==> keys_changed(store, plan, keys),
        plan.first_keys ==> keys_changed(store, plan, keys),
        plan.signed_prekey_id is Some ==> keys_changed(store, plan, keys),
        !plan.first_keys && plan.prekey_ids.len() == 0 && plan.signed_prekey_id is None
            && signed_made(store, plan, keys).dom().len() <= SIGNED_PREKEY_OVERLAP
            ==> !keys_changed(store, plan, keys),
{
}

} // verus!
