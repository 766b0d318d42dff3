//! The durable state of one Signal device, and the rules on its peers.
//!
//! Keys, sessions and identities are serialized records here. What is in them is
//! for the protocol implementation; which of them exist, which peer may be
//! talked to, and what is written down when, is decided in this module.
use vstd::prelude::*;

use crate::bundle;
use crate::bundle::{identity_fingerprint, IdentityRecoveryRecord, RecoveryView, SignalPreKeyBundle};
use crate::bytes::{copy_bytes, same_bytes};
use crate::protocol;
use crate::signal;
use crate::signal::{write_address, EnvelopeView, SignalEnvelope, SignalError};
use crate::table;
use crate::table::{KeyTable, TextTable};
use crate::text;
use crate::text::same_text;

verus! {

/// The name of a device that was never given one.
pub const UNCONFIGURED: &'static str = "unconfigured";

/// How key maintenance has gone so far.
#[derive(Clone, Debug, Eq, PartialEq)]
pub struct KeyMaintenanceStatus {
    pub consecutive_failures: u32,
    pub total_failures: u64,
    pub last_error: Option<String>,
    pub last_failed_at: Option<u64>,
}

/// The contents of a [`KeyMaintenanceStatus`].
#[verifier::ext_equal]
pub struct StatusView {
    pub consecutive_failures: u32,
    pub total_failures: u64,
    pub last_error: Option<Seq<char>>,
    pub last_failed_at: Option<u64>,
}

impl View for KeyMaintenanceStatus {
    type V = StatusView;

    open spec fn view(&self) -> StatusView {
        StatusView {
            consecutive_failures: self.consecutive_failures,
            total_failures: self.total_failures,
            last_error: protocol::optional_text(self.last_error),
            last_failed_at: self.last_failed_at,
        }
    }
}

/// That a peer's identity may no longer be used.
#[derive(Clone, Debug, Eq, PartialEq)]
pub struct Revocation {
    pub old_fingerprint: String,
    pub new_fingerprint: Option<String>,
    pub effective_at: u64,
    pub reason: String,
}

/// The contents of a [`Revocation`].
#[verifier::ext_equal]
pub struct RevocationView {
    pub old_fingerprint: Seq<char>,
    pub new_fingerprint: Option<Seq<char>>,
    pub effective_at: u64,
    pub reason: Seq<char>,
}

impl View for Revocation {
    type V = RevocationView;

    open spec fn view(&self) -> RevocationView {
        RevocationView {
            old_fingerprint: self.old_fingerprint@,
            new_fingerprint: protocol::optional_text(self.new_fingerprint),
            effective_at: self.effective_at,
            reason: self.reason@,
        }
    }
}

/// A recovery record that was issued or accepted.
#[derive(Clone, Debug, Eq, PartialEq)]
pub struct RecoveryRow {
    pub old_fingerprint: String,
    pub new_fingerprint: String,
    pub effective_at: u64,
    pub record: Vec<u8>,
}

/// The contents of a [`RecoveryRow`].
#[verifier::ext_equal]
pub struct RecoveryRowView {
    pub old_fingerprint: Seq<char>,
    pub new_fingerprint: Seq<char>,
    pub effective_at: u64,
    pub record: Seq<u8>,
}

impl View for RecoveryRow {
    type V = RecoveryRowView;

    open spec fn view(&self) -> RecoveryRowView {
        RecoveryRowView {
            old_fingerprint: self.old_fingerprint@,
            new_fingerprint: self.new_fingerprint@,
            effective_at: self.effective_at,
            record: self.record@,
        }
    }
}

/// Why a device operation was refused.
#[derive(Clone, Copy, Debug, PartialEq, Eq, Structural)]
pub enum DeviceError {
    PlaintextDatabase,
    InitializedForAnotherAddress,
    PeerIdentityChanged,
    ConfirmationRequired,
    InvalidRecoverySignature,
    NotSignedByTrustedIdentity,
    NotInitialized,
    PeerRevoked,
    PeerNotTrusted,
    SenderRevoked,
    SenderNotTrusted,
    NoPrekey,
    NoSignedPrekey,
    NoKyberPrekey,
    /// There is no number left for a new one-time prekey.
    NoPrekeyNumber,
    /// What was asked for outside could not be done.
    OutsideFailed,
    /// The reply does not belong to what was asked for.
    UnexpectedReply,
    Frame(SignalError),
}

impl DeviceError {
    /// What a user is told.
    pub fn message(self) -> (message: &'static str)
        ensures
            message@ == (match self {
                DeviceError::PlaintextDatabase => "Signal database is not encrypted"@,
                DeviceError::InitializedForAnotherAddress => {
                    "database is already initialized for another Signal address"@
                },
                DeviceError::PeerIdentityChanged => {
                    "peer identity changed; explicit rotation/recovery is required"@
                },
                DeviceError::ConfirmationRequired => {
                    "recovery requires explicit new-fingerprint confirmation"@
                },
                DeviceError::InvalidRecoverySignature => "recovery record signature is invalid"@,
                DeviceError::NotSignedByTrustedIdentity => {
                    "recovery record is not signed by the currently trusted peer identity"@
                },
                DeviceError::NotInitialized => "database must be initialized before encryption"@,
                DeviceError::PeerRevoked => {
                    "peer device is revoked; verify a replacement bundle first"@
                },
                DeviceError::PeerNotTrusted => {
                    "peer identity is not trusted; verify and run signal trust first"@
                },
                DeviceError::SenderRevoked => {
                    "sender device is revoked; accept a signed recovery or verify a new bundle first"@
                },
                DeviceError::SenderNotTrusted => {
                    "sender identity is not trusted; verify it before decrypting"@
                },
                DeviceError::NoPrekey => "no one-time prekey available"@,
                DeviceError::NoSignedPrekey => "no signed prekey available"@,
                DeviceError::NoKyberPrekey => "no Kyber prekey available"@,
                DeviceError::NoPrekeyNumber => "no prekey number is left"@,
                DeviceError::OutsideFailed => "a step of the device failed"@,
                DeviceError::UnexpectedReply => "the device was answered out of turn"@,
                DeviceError::Frame(error) => signal::error_text(error),
            }),
    {
        match self {
            DeviceError::PlaintextDatabase => "Signal database is not encrypted",
            DeviceError::InitializedForAnotherAddress => {
                "database is already initialized for another Signal address"
            },
            DeviceError::PeerIdentityChanged => {
                "peer identity changed; explicit rotation/recovery is required"
            },
            DeviceError::ConfirmationRequired => {
                "recovery requires explicit new-fingerprint confirmation"
            },
            DeviceError::InvalidRecoverySignature => "recovery record signature is invalid",
            DeviceError::NotSignedByTrustedIdentity => {
                "recovery record is not signed by the currently trusted peer identity"
            },
            DeviceError::NotInitialized => "database must be initialized before encryption",
            DeviceError::PeerRevoked => "peer device is revoked; verify a replacement bundle first",
            DeviceError::PeerNotTrusted => {
                "peer identity is not trusted; verify and run signal trust first"
            },
            DeviceError::SenderRevoked => {
                "sender device is revoked; accept a signed recovery or verify a new bundle first"
            },
            DeviceError::SenderNotTrusted => {
                "sender identity is not trusted; verify it before decrypting"
            },
            DeviceError::NoPrekey => "no one-time prekey available",
            DeviceError::NoSignedPrekey => "no signed prekey available",
            DeviceError::NoKyberPrekey => "no Kyber prekey available",
            DeviceError::NoPrekeyNumber => "no prekey number is left",
            DeviceError::OutsideFailed => "a step of the device failed",
            DeviceError::UnexpectedReply => "the device was answered out of turn",
            DeviceError::Frame(error) => error.message(),
        }
    }
}

/// What is written down.
#[derive(Debug)]
pub struct DeviceRecords {
    pub device: Option<(String, u32)>,
    pub identity_pair: Vec<u8>,
    pub registration_id: u32,
    pub sessions: TextTable<Vec<u8>>,
    pub trusted: TextTable<Vec<u8>>,
    pub prekeys: KeyTable,
    pub signed_prekeys: KeyTable,
    pub kyber_prekeys: KeyTable,
    pub signed_prekey_created_at: u64,
    pub failures: KeyMaintenanceStatus,
    pub revocations: TextTable<Revocation>,
    pub recoveries: Vec<RecoveryRow>,
}

/// The contents of [`DeviceRecords`].
#[verifier::ext_equal]
pub struct RecordsView {
    pub device: Option<(Seq<char>, u32)>,
    pub identity_pair: Seq<u8>,
    pub registration_id: u32,
    pub sessions: Map<Seq<char>, Seq<u8>>,
    pub trusted: Map<Seq<char>, Seq<u8>>,
    pub prekeys: Map<u32, Seq<u8>>,
    pub signed_prekeys: Map<u32, Seq<u8>>,
    pub kyber_prekeys: Map<u32, Seq<u8>>,
    pub signed_prekey_created_at: u64,
    pub failures: StatusView,
    pub revocations: Map<Seq<char>, RevocationView>,
    pub recoveries: Seq<RecoveryRowView>,
}

/// The contents of every value of a table.
pub open spec fn byte_views(map: Map<Seq<char>, Vec<u8>>) -> Map<Seq<char>, Seq<u8>> {
    map.map_values(|bytes: Vec<u8>| bytes@)
}

/// The contents of every revocation.
pub open spec fn revocation_views(map: Map<Seq<char>, Revocation>) -> Map<
    Seq<char>,
    RevocationView,
> {
    map.map_values(|revocation: Revocation| revocation@)
}

/// The contents of every recovery record.
pub open spec fn recovery_views(rows: Seq<RecoveryRow>) -> Seq<RecoveryRowView> {
    rows.map_values(|row: RecoveryRow| row@)
}

/// The address that a device was given.
pub open spec fn address_view(device: Option<(String, u32)>) -> Option<(Seq<char>, u32)> {
    match device {
        Some((name, device_id)) => Some((name@, device_id)),
        None => None,
    }
}

impl View for DeviceRecords {
    type V = RecordsView;

    open spec fn view(&self) -> RecordsView {
        RecordsView {
            device: address_view(self.device),
            identity_pair: self.identity_pair@,
            registration_id: self.registration_id,
            sessions: byte_views(self.sessions@),
            trusted: byte_views(self.trusted@),
            prekeys: self.prekeys@,
            signed_prekeys: self.signed_prekeys@,
            kyber_prekeys: self.kyber_prekeys@,
            signed_prekey_created_at: self.signed_prekey_created_at,
            failures: self.failures@,
            revocations: revocation_views(self.revocations@),
            recoveries: recovery_views(self.recoveries@),
        }
    }
}

/// What the protocol implementation works with while the device is open.
#[derive(Debug)]
pub struct RuntimeStore {
    pub sessions: TextTable<Vec<u8>>,
    pub identities: TextTable<Vec<u8>>,
    pub prekeys: KeyTable,
    pub signed_prekeys: KeyTable,
    pub kyber_prekeys: KeyTable,
}

/// The contents of a [`RuntimeStore`].
#[verifier::ext_equal]
pub struct RuntimeView {
    pub sessions: Map<Seq<char>, Seq<u8>>,
    pub identities: Map<Seq<char>, Seq<u8>>,
    pub prekeys: Map<u32, Seq<u8>>,
    pub signed_prekeys: Map<u32, Seq<u8>>,
    pub kyber_prekeys: Map<u32, Seq<u8>>,
}

impl View for RuntimeStore {
    type V = RuntimeView;

    open spec fn view(&self) -> RuntimeView {
        RuntimeView {
            sessions: byte_views(self.sessions@),
            identities: byte_views(self.identities@),
            prekeys: self.prekeys@,
            signed_prekeys: self.signed_prekeys@,
            kyber_prekeys: self.kyber_prekeys@,
        }
    }
}

/// One Signal device: what is written down of it, and what is open.
#[derive(Debug)]
pub struct SqliteSignalState {
    pub records: DeviceRecords,
    pub store: RuntimeStore,
    pub local_name: String,
    pub local_device_id: u32,
}

/// The contents of a [`SqliteSignalState`].
#[verifier::ext_equal]
pub struct StateView {
    pub records: RecordsView,
    pub store: RuntimeView,
    pub name: Seq<char>,
    pub device_id: u32,
}

impl View for SqliteSignalState {
    type V = StateView;

    open spec fn view(&self) -> StateView {
        StateView {
            records: self.records@,
            store: self.store@,
            name: self.local_name@,
            device_id: self.local_device_id,
        }
    }
}

// ---------------------------------------------------------------------------
// Tables of bytes
// ---------------------------------------------------------------------------

fn put_bytes(table: &mut TextTable<Vec<u8>>, key: &str, bytes: Vec<u8>)
    requires
        old(table).wf(),
    ensures
        final(table).wf(),
        byte_views(final(table)@) == byte_views(old(table)@).insert(key@, bytes@),
{
    let ghost before = table@;
    table.put(key, bytes);
    assert(byte_views(table@) =~= byte_views(before).insert(key@, bytes@));
}

fn remove_bytes(table: &mut TextTable<Vec<u8>>, key: &str)
    requires
        old(table).wf(),
    ensures
        final(table).wf(),
        byte_views(final(table)@) == byte_views(old(table)@).remove(key@),
{
    let ghost before = table@;
    table.remove(key);
    assert(byte_views(table@) =~= byte_views(before).remove(key@));
}

fn no_bytes() -> (table: TextTable<Vec<u8>>)
    ensures
        table.wf(),
        byte_views(table@) == Map::<Seq<char>, Seq<u8>>::empty(),
{
    let table: TextTable<Vec<u8>> = TextTable::new();
    assert(byte_views(table@) =~= Map::<Seq<char>, Seq<u8>>::empty());
    table
}

fn put_revocation(table: &mut TextTable<Revocation>, key: &str, revocation: Revocation)
    requires
        old(table).wf(),
    ensures
        final(table).wf(),
        revocation_views(final(table)@) == revocation_views(old(table)@).insert(
            key@,
            revocation@,
        ),
{
    let ghost before = table@;
    table.put(key, revocation);
    assert(revocation_views(table@) =~= revocation_views(before).insert(key@, revocation@));
}

fn remove_revocation(table: &mut TextTable<Revocation>, key: &str)
    requires
        old(table).wf(),
    ensures
        final(table).wf(),
        revocation_views(final(table)@) == revocation_views(old(table)@).remove(key@),
{
    let ghost before = table@;
    table.remove(key);
    assert(revocation_views(table@) =~= revocation_views(before).remove(key@));
}

fn copy_blobs(table: &TextTable<Vec<u8>>) -> (copy: TextTable<Vec<u8>>)
    requires
        table.wf(),
    ensures
        copy.wf(),
        byte_views(copy@) == byte_views(table@),
{
    let mut copy = no_bytes();
    let mut index: usize = 0;
    let ghost rows = table.rows@;
    assert(rows.take(0) =~= Seq::empty());
    assert(byte_views(table::text_rows_map(rows.take(0))) =~= Map::<Seq<char>, Seq<u8>>::empty());
    while index < table.rows.len()
        invariant
            index <= rows.len(),
            rows == table.rows@,
            copy.wf(),
            byte_views(copy@) == byte_views(table::text_rows_map(rows.take(index as int))),
        decreases rows.len() - index,
    {
        let ghost known = table::text_rows_map(rows.take(index as int));
        assert(rows.take(index + 1).drop_last() =~= rows.take(index as int));
        let row = &table.rows[index];
        put_bytes(&mut copy, row.key.as_str(), copy_bytes(row.value.as_slice()));
        assert(byte_views(known.insert(row.key@, row.value)) =~= byte_views(known).insert(
            row.key@,
            row.value@,
        ));
        index += 1;
    }
    assert(rows.take(index as int) =~= rows);
    copy
}

fn copy_text(value: &Option<String>) -> (copy: Option<String>)
    ensures
        protocol::optional_text(copy) == protocol::optional_text(*value),
{
    match value {
        Some(text) => Some(text.clone()),
        None => None,
    }
}

fn copy_revocations(table: &TextTable<Revocation>) -> (copy: TextTable<Revocation>)
    requires
        table.wf(),
    ensures
        copy.wf(),
        revocation_views(copy@) == revocation_views(table@),
{
    let mut copy: TextTable<Revocation> = TextTable::new();
    let mut index: usize = 0;
    let ghost rows = table.rows@;
    assert(rows.take(0) =~= Seq::empty());
    assert(revocation_views(copy@) =~= revocation_views(table::text_rows_map(rows.take(0))));
    while index < table.rows.len()
        invariant
            index <= rows.len(),
            rows == table.rows@,
            copy.wf(),
            revocation_views(copy@) == revocation_views(
                table::text_rows_map(rows.take(index as int)),
            ),
        decreases rows.len() - index,
    {
        let ghost known = table::text_rows_map(rows.take(index as int));
        assert(rows.take(index + 1).drop_last() =~= rows.take(index as int));
        let row = &table.rows[index];
        let revocation = Revocation {
            old_fingerprint: row.value.old_fingerprint.clone(),
            new_fingerprint: copy_text(&row.value.new_fingerprint),
            effective_at: row.value.effective_at,
            reason: row.value.reason.clone(),
        };
        put_revocation(&mut copy, row.key.as_str(), revocation);
        assert(revocation_views(known.insert(row.key@, row.value)) =~= revocation_views(
            known,
        ).insert(row.key@, row.value@));
        index += 1;
    }
    assert(rows.take(index as int) =~= rows);
    copy
}

fn copy_recoveries(rows: &Vec<RecoveryRow>) -> (copy: Vec<RecoveryRow>)
    ensures
        recovery_views(copy@) == recovery_views(rows@),
{
    let mut copy: Vec<RecoveryRow> = Vec::new();
    let mut index: usize = 0;
    while index < rows.len()
        invariant
            index <= rows@.len(),
            copy@.len() == index,
            forall|i: int| 0 <= i < index ==> (#[trigger] copy@[i])@ == rows@[i]@,
        decreases rows@.len() - index,
    {
        copy.push(
            RecoveryRow {
                old_fingerprint: rows[index].old_fingerprint.clone(),
                new_fingerprint: rows[index].new_fingerprint.clone(),
                effective_at: rows[index].effective_at,
                record: copy_bytes(rows[index].record.as_slice()),
            },
        );
        index += 1;
    }
    assert(recovery_views(copy@) =~= recovery_views(rows@));
    copy
}

impl DeviceRecords {
    /// No table has two rows for one key.
    pub open spec fn wf(self) -> bool {
        &&& self.sessions.wf()
        &&& self.trusted.wf()
        &&& self.prekeys.wf()
        &&& self.signed_prekeys.wf()
        &&& self.kyber_prekeys.wf()
        &&& self.revocations.wf()
    }

    /// A copy of what is written down.
    pub fn copy(&self) -> (copy: DeviceRecords)
        requires
            self.wf(),
        ensures
            copy.wf(),
            copy@ == self@,
    {
        DeviceRecords {
            device: match &self.device {
                Some(device) => Some((device.0.clone(), device.1)),
                None => None,
            },
            identity_pair: copy_bytes(self.identity_pair.as_slice()),
            registration_id: self.registration_id,
            sessions: copy_blobs(&self.sessions),
            trusted: copy_blobs(&self.trusted),
            prekeys: self.prekeys.copy(),
            signed_prekeys: self.signed_prekeys.copy(),
            kyber_prekeys: self.kyber_prekeys.copy(),
            signed_prekey_created_at: self.signed_prekey_created_at,
            failures: KeyMaintenanceStatus {
                consecutive_failures: self.failures.consecutive_failures,
                total_failures: self.failures.total_failures,
                last_error: copy_text(&self.failures.last_error),
                last_failed_at: self.failures.last_failed_at,
            },
            revocations: copy_revocations(&self.revocations),
            recoveries: copy_recoveries(&self.recoveries),
        }
    }
}

impl RuntimeStore {
    /// No table has two rows for one key.
    pub open spec fn wf(self) -> bool {
        &&& self.sessions.wf()
        &&& self.identities.wf()
        &&& self.prekeys.wf()
        &&& self.signed_prekeys.wf()
        &&& self.kyber_prekeys.wf()
    }
}

// ---------------------------------------------------------------------------
// Opening a device
// ---------------------------------------------------------------------------

/// The header of a database that is not encrypted: `SQLite format 3` and a zero.
pub open spec fn plaintext_header() -> Seq<u8> {
    seq![
        0x53u8,
        0x51u8,
        0x4cu8,
        0x69u8,
        0x74u8,
        0x65u8,
        0x20u8,
        0x66u8,
        0x6fu8,
        0x72u8,
        0x6du8,
        0x61u8,
        0x74u8,
        0x20u8,
        0x33u8,
        0x00u8,
    ]
}

/// Refuses a database whose first sixteen bytes show that it is not encrypted.
/// `header` is what could be read of them.
pub fn reject_plaintext_database(header: &[u8]) -> (result: Result<(), DeviceError>)
    ensures
        result == (if header@ == plaintext_header() {
            Err::<(), DeviceError>(DeviceError::PlaintextDatabase)
        } else {
            Ok(())
        }),
{
    let expected: [u8; 16] = [
        0x53,
        0x51,
        0x4c,
        0x69,
        0x74,
        0x65,
        0x20,
        0x66,
        0x6f,
        0x72,
        0x6d,
        0x61,
        0x74,
        0x20,
        0x33,
        0x00,
    ];
    assert(expected@ =~= plaintext_header());
    if same_bytes(header, expected.as_slice()) {
        return Err(DeviceError::PlaintextDatabase);
    }
    Ok(())
}

/// A registration number made from random bits: the lowest fourteen of them.
pub fn registration_id(random: u32) -> (id: u32)
    ensures
        id == random % 0x4000,
{
    assert(random & 0x3fff == random % 0x4000) by (bit_vector);
    random & 0x3fff
}

/// The runtime of a device that was just opened: its keys, and no peer.
pub open spec fn fresh_store(records: RecordsView) -> RuntimeView {
    RuntimeView {
        sessions: Map::empty(),
        identities: Map::empty(),
        prekeys: records.prekeys,
        signed_prekeys: records.signed_prekeys,
        kyber_prekeys: records.kyber_prekeys,
    }
}

/// A device that is opened from what is written down of it.
pub open spec fn opened(records: RecordsView) -> StateView {
    StateView {
        records,
        store: fresh_store(records),
        name: match records.device {
            Some(device) => device.0,
            None => UNCONFIGURED@,
        },
        device_id: match records.device {
            Some(device) => device.1,
            None => 1,
        },
    }
}

/// A device that is given an address, or that confirms the one that it has.
pub open spec fn with_address(d: StateView, name: Seq<char>, device_id: u32) -> Result<
    StateView,
    DeviceError,
> {
    match d.records.device {
        Some(device) if device != (name, device_id) => Err(
            DeviceError::InitializedForAnotherAddress,
        ),
        _ => Ok(
            StateView {
                records: RecordsView { device: Some((name, device_id)), ..d.records },
                name,
                device_id,
                ..d
            },
        ),
    }
}

/// The address of a device.
pub open spec fn local_address_of(d: StateView) -> Seq<char> {
    signal::address_text(d.name, d.device_id)
}

/// A table with what another one holds for a key.
pub open spec fn copied(
    to: Map<Seq<char>, Seq<u8>>,
    from: Map<Seq<char>, Seq<u8>>,
    key: Seq<char>,
) -> Map<Seq<char>, Seq<u8>> {
    if from.contains_key(key) {
        to.insert(key, from[key])
    } else {
        to
    }
}

/// What a table holds for a key.
pub open spec fn entry(map: Map<Seq<char>, Seq<u8>>, key: Seq<char>) -> Option<Seq<u8>> {
    if map.contains_key(key) {
        Some(map[key])
    } else {
        None
    }
}

/// A device with what is written down of a peer in its runtime.
pub open spec fn loaded(d: StateView, peer: Seq<char>) -> StateView {
    StateView {
        store: RuntimeView {
            sessions: copied(d.store.sessions, d.records.sessions, peer),
            identities: copied(d.store.identities, d.records.trusted, peer),
            ..d.store
        },
        ..d
    }
}

/// A device with its keys and what its runtime holds of a peer written down. Keys
/// that the runtime no longer has are gone; only Kyber keys stay.
pub open spec fn persisted(d: StateView, peer: Seq<char>) -> StateView {
    StateView {
        records: RecordsView {
            sessions: copied(d.records.sessions, d.store.sessions, peer),
            trusted: copied(d.records.trusted, d.store.identities, peer),
            prekeys: d.store.prekeys,
            signed_prekeys: d.store.signed_prekeys,
            kyber_prekeys: d.records.kyber_prekeys.union_prefer_right(d.store.kyber_prekeys),
            ..d.records
        },
        ..d
    }
}

/// The identity that is trusted for a peer while the device is open.
pub open spec fn trusted_by(d: StateView, peer: Seq<char>) -> Option<Seq<u8>> {
    entry(d.store.identities, peer)
}

fn load_records(records: &DeviceRecords) -> (store: RuntimeStore)
    requires
        records.wf(),
    ensures
        store.wf(),
        store@ == fresh_store(records@),
{
    RuntimeStore {
        sessions: no_bytes(),
        identities: no_bytes(),
        prekeys: records.prekeys.copy(),
        signed_prekeys: records.signed_prekeys.copy(),
        kyber_prekeys: records.kyber_prekeys.copy(),
    }
}

impl SqliteSignalState {
    /// The tables are in order.
    pub open spec fn wf(self) -> bool {
        self.records.wf() && self.store.wf()
    }

    /// Opens a device from what is written down of it.
    pub fn open(records: DeviceRecords) -> (state: SqliteSignalState)
        requires
            records.wf(),
        ensures
            state.wf(),
            state@ == opened(records@),
    {
        let (local_name, local_device_id): (String, u32) = match &records.device {
            Some(device) => (device.0.clone(), device.1),
            None => (UNCONFIGURED.to_owned(), 1),
        };
        let store = load_records(&records);
        SqliteSignalState { records, store, local_name, local_device_id }
    }

    /// Gives a device its address, or confirms the one that it has.
    pub fn initialize(&mut self, name: &str, device_id: u32) -> (result: Result<(), DeviceError>)
        requires
            old(self).wf(),
        ensures
            final(self).wf(),
            match with_address(old(self)@, name@, device_id) {
                Ok(after) => result is Ok && final(self)@ == after,
                Err(error) => result == Err::<(), DeviceError>(error) && *final(self) == *old(
                    self,
                ),
            },
    {
        match &self.records.device {
            Some(device) => {
                if !same_text(device.0.as_str(), name) || device.1 != device_id {
                    return Err(DeviceError::InitializedForAnotherAddress);
                }
            },
            None => {
                self.records.device = Some((name.to_owned(), device_id));
            },
        }
        self.local_name = name.to_owned();
        self.local_device_id = device_id;
        Ok(())
    }

    /// The address of the device.
    pub fn local_address(&self) -> (address: String)
        ensures
            address@ == local_address_of(self@),
    {
        write_address(self.local_name.as_str(), self.local_device_id)
    }

    /// The identity that is trusted for a peer.
    pub fn trusted_identity(&self, peer: &str) -> (identity: Option<&Vec<u8>>)
        requires
            self.wf(),
        ensures
            match identity {
                Some(key) => trusted_by(self@, peer@) == Some(key@),
                None => trusted_by(self@, peer@) is None,
            },
    {
        self.store.identities.get(peer)
    }

    /// Brings what is written down of a peer into the runtime.
    pub fn load_peer(&mut self, peer: &str)
        requires
            old(self).wf(),
        ensures
            final(self).wf(),
            final(self)@ == loaded(old(self)@, peer@),
    {
        if let Some(record) = self.records.sessions.get(peer) {
            let record = copy_bytes(record.as_slice());
            put_bytes(&mut self.store.sessions, peer, record);
        }
        if let Some(identity) = self.records.trusted.get(peer) {
            let identity = copy_bytes(identity.as_slice());
            put_bytes(&mut self.store.identities, peer, identity);
        }
    }

    /// Writes down the keys of the runtime and what it holds of one peer.
    pub fn persist_peer(&mut self, peer: &str)
        requires
            old(self).wf(),
        ensures
            final(self).wf(),
            final(self)@ == persisted(old(self)@, peer@),
    {
        if let Some(record) = self.store.sessions.get(peer) {
            let record = copy_bytes(record.as_slice());
            put_bytes(&mut self.records.sessions, peer, record);
        }
        if let Some(identity) = self.store.identities.get(peer) {
            let identity = copy_bytes(identity.as_slice());
            put_bytes(&mut self.records.trusted, peer, identity);
        }
        self.records.prekeys = self.store.prekeys.copy();
        self.records.signed_prekeys = self.store.signed_prekeys.copy();
        self.records.kyber_prekeys.put_all_from(&self.store.kyber_prekeys);
    }

    /// Forgets what the runtime holds of peers and takes the keys from what is
    /// written down.
    pub fn reset_runtime_store(&mut self)
        requires
            old(self).wf(),
        ensures
            final(self).wf(),
            final(self)@ == (StateView { store: fresh_store(old(self)@.records), ..old(self)@ }),
    {
        self.store = load_records(&self.records);
    }
}

/// What is written down survives a restart: a peer that was persisted has the same
/// session and the same trusted identity once the device is opened again and the
/// peer is loaded, and so do the one-time and signed prekeys.
pub proof fn law_persisted_peer_survives_reopening(d: StateView, peer: Seq<char>)
    ensures
        ({
            let again = loaded(opened(persisted(d, peer).records), peer);
            &&& d.store.sessions.contains_key(peer) ==> entry(again.store.sessions, peer) == entry(
                d.store.sessions,
                peer,
            )
            &&& d.store.identities.contains_key(peer) ==> trusted_by(again, peer) == trusted_by(
                d,
                peer,
            )
            &&& again.store.prekeys == d.store.prekeys
            &&& again.store.signed_prekeys == d.store.signed_prekeys
        }),
{
}

/// A device that is opened again is the device that it was: it has the same identity,
/// the same registration and the address that it was given, and takes no other.
pub proof fn law_reopened_device_is_the_same(
    d: StateView,
    name: Seq<char>,
    device_id: u32,
    peer: Seq<char>,
)
    requires
        with_address(d, name, device_id) is Ok,
    ensures
        ({
            let after = with_address(d, name, device_id)->Ok_0;
            let again = opened(persisted(after, peer).records);
            &&& again.records.identity_pair == d.records.identity_pair
            &&& again.records.registration_id == d.records.registration_id
            &&& local_address_of(again) == signal::address_text(name, device_id)
            &&& with_address(again, name, device_id) == Ok::<StateView, DeviceError>(again)
            &&& forall|other: Seq<char>, other_id: u32|
                (other, other_id) != (name, device_id) ==> #[trigger] with_address(
                    again,
                    other,
                    other_id,
                ) == Err::<StateView, DeviceError>(DeviceError::InitializedForAnotherAddress)
        }),
{
}

/// A one-time prekey that was used up does not come back: once the runtime has lost
/// it and the keys were written down, no restart brings it back.
pub proof fn law_used_prekey_stays_used(d: StateView, peer: Seq<char>, id: u32)
    requires
        !d.store.prekeys.contains_key(id),
    ensures
        !opened(persisted(d, peer).records).store.prekeys.contains_key(id),
{
}

// ---------------------------------------------------------------------------
// Trust and revocation
// ---------------------------------------------------------------------------

/// Whether a peer is revoked: after an explicit revocation always, after an
/// identity was replaced for every identity but the new one.
pub open spec fn revoked(
    revocations: Map<Seq<char>, RevocationView>,
    peer: Seq<char>,
    trusted: Option<Seq<u8>>,
) -> bool {
    revocations.contains_key(peer) && match revocations[peer].new_fingerprint {
        None => true,
        Some(expected) => match trusted {
            Some(identity) => text::hex(identity) != expected,
            None => true,
        },
    }
}

/// Whether a device holds a peer for revoked.
pub open spec fn revoked_by(d: StateView, peer: Seq<char>) -> bool {
    revoked(d.records.revocations, peer, trusted_by(d, peer))
}

/// A device that trusts an identity for a peer, which lifts a revocation. An
/// identity that differs from the trusted one is refused.
pub open spec fn trusting(d: StateView, peer: Seq<char>, identity: Seq<u8>) -> Result<
    StateView,
    DeviceError,
> {
    match trusted_by(d, peer) {
        Some(known) if known != identity => Err(DeviceError::PeerIdentityChanged),
        _ => Ok(
            persisted(
                StateView {
                    records: RecordsView {
                        revocations: d.records.revocations.remove(peer),
                        ..d.records
                    },
                    store: RuntimeView {
                        identities: d.store.identities.insert(peer, identity),
                        ..d.store
                    },
                    ..d
                },
                peer,
            ),
        ),
    }
}

/// A device that has revoked a peer's device.
pub open spec fn without_device(d: StateView, peer: Seq<char>, now: u64) -> StateView {
    let records = RecordsView {
        sessions: d.records.sessions.remove(peer),
        trusted: d.records.trusted.remove(peer),
        revocations: d.records.revocations.insert(
            peer,
            RevocationView {
                old_fingerprint: match trusted_by(d, peer) {
                    Some(identity) => text::hex(identity),
                    None => "unknown"@,
                },
                new_fingerprint: None,
                effective_at: now,
                reason: "explicit device revocation"@,
            },
        ),
        ..d.records
    };
    StateView { records, store: fresh_store(records), ..d }
}

/// The row of a recovery record that has a frame.
pub open spec fn recovery_row(record: RecoveryView) -> RecoveryRowView {
    RecoveryRowView {
        old_fingerprint: text::hex(record.old_identity),
        new_fingerprint: text::hex(record.new_bundle.identity_key),
        effective_at: record.effective_at,
        record: bundle::recovery_encoding(record)->Ok_0,
    }
}

/// The revocation of an identity that was replaced.
pub open spec fn replacement(record: RecoveryView) -> RevocationView {
    RevocationView {
        old_fingerprint: text::hex(record.old_identity),
        new_fingerprint: Some(text::hex(record.new_bundle.identity_key)),
        effective_at: record.effective_at,
        reason: "identity replacement"@,
    }
}

/// The device that a bundle belongs to.
pub open spec fn bundle_peer(bundle: bundle::BundleView) -> Seq<char> {
    signal::address_text(bundle.name, bundle.device_id)
}

/// A device that accepts that a peer has replaced its identity, once the new
/// fingerprint is confirmed and the old identity's signature was found valid.
pub open spec fn recovered(
    d: StateView,
    record: RecoveryView,
    confirmed: bool,
    signature_valid: bool,
) -> Result<StateView, DeviceError> {
    let peer = bundle_peer(record.new_bundle);
    if !confirmed || !record.confirmation {
        Err(DeviceError::ConfirmationRequired)
    } else if !bundle::recovery_fits(record) {
        Err(DeviceError::Frame(SignalError::FieldTooLarge))
    } else if !signature_valid {
        Err(DeviceError::InvalidRecoverySignature)
    } else if trusted_by(d, peer) != Some(record.old_identity) {
        Err(DeviceError::NotSignedByTrustedIdentity)
    } else if bundle::recovery_encoding(record) is Err {
        Err(DeviceError::Frame(SignalError::FieldTooLarge))
    } else {
        let written = persisted(
            StateView {
                records: RecordsView {
                    sessions: d.records.sessions.remove(peer),
                    revocations: d.records.revocations.insert(peer, replacement(record)),
                    recoveries: d.records.recoveries.push(recovery_row(record)),
                    ..d.records
                },
                store: RuntimeView {
                    identities: d.store.identities.insert(peer, record.new_bundle.identity_key),
                    ..d.store
                },
                ..d
            },
            peer,
        );
        Ok(StateView { store: fresh_store(written.records), ..written })
    }
}

/// A device with a new identity: every session, every trusted identity and every key
/// of the old one is gone.
pub open spec fn with_identity(d: StateView, identity_pair: Seq<u8>, registration_id: u32) -> StateView {
    let records = RecordsView {
        identity_pair,
        registration_id,
        sessions: Map::empty(),
        trusted: Map::empty(),
        prekeys: Map::empty(),
        signed_prekeys: Map::empty(),
        kyber_prekeys: Map::empty(),
        signed_prekey_created_at: 0,
        ..d.records
    };
    StateView { records, store: fresh_store(records), ..d }
}

impl SqliteSignalState {
    /// Whether a peer is revoked.
    pub fn is_revoked(&self, peer: &str) -> (result: bool)
        requires
            self.wf(),
        ensures
            result == revoked_by(self@, peer@),
    {
        match self.records.revocations.get(peer) {
            None => false,
            Some(revocation) => {
                assert(self@.records.revocations[peer@] == revocation@);
                match &revocation.new_fingerprint {
                    None => true,
                    Some(expected) => match self.trusted_identity(peer) {
                        None => true,
                        Some(identity) => !same_text(
                            identity_fingerprint(identity.as_slice()).as_str(),
                            expected.as_str(),
                        ),
                    },
                }
            },
        }
    }

    /// Trusts an identity for a peer, which lifts a revocation. An identity that
    /// differs from the trusted one is refused.
    pub fn trust_peer(&mut self, peer: &str, identity: Vec<u8>) -> (result: Result<(), DeviceError>)
        requires
            old(self).wf(),
        ensures
            final(self).wf(),
            match trusting(old(self)@, peer@, identity@) {
                Ok(after) => result is Ok && final(self)@ == after,
                Err(error) => result == Err::<(), DeviceError>(error) && *final(self) == *old(
                    self,
                ),
            },
    {
        if let Some(known) = self.trusted_identity(peer) {
            if !same_bytes(known.as_slice(), identity.as_slice()) {
                return Err(DeviceError::PeerIdentityChanged);
            }
        }
        put_bytes(&mut self.store.identities, peer, identity);
        remove_revocation(&mut self.records.revocations, peer);
        self.persist_peer(peer);
        Ok(())
    }

    /// Trusts the identity of a bundle for the device that it belongs to.
    pub fn trust_bundle(&mut self, bundle: &SignalPreKeyBundle) -> (result: Result<(), DeviceError>)
        requires
            old(self).wf(),
        ensures
            final(self).wf(),
            match trusting(old(self)@, bundle_peer(bundle@), bundle@.identity_key) {
                Ok(after) => result is Ok && final(self)@ == after,
                Err(error) => result == Err::<(), DeviceError>(error) && *final(self) == *old(
                    self,
                ),
            },
    {
        let peer = bundle.address();
        self.trust_peer(peer.as_str(), copy_bytes(bundle.identity_key.as_slice()))
    }

    /// Revokes a peer's device: its session and its identity are forgotten.
    pub fn revoke_device(&mut self, peer: &str, now: u64)
        requires
            old(self).wf(),
        ensures
            final(self).wf(),
            final(self)@ == without_device(old(self)@, peer@, now),
    {
        let old_fingerprint = match self.trusted_identity(peer) {
            Some(identity) => identity_fingerprint(identity.as_slice()),
            None => "unknown".to_owned(),
        };
        remove_bytes(&mut self.records.sessions, peer);
        remove_bytes(&mut self.records.trusted, peer);
        put_revocation(
            &mut self.records.revocations,
            peer,
            Revocation {
                old_fingerprint,
                new_fingerprint: None,
                effective_at: now,
                reason: "explicit device revocation".to_owned(),
            },
        );
        self.reset_runtime_store();
    }

    fn push_recovery(&mut self, record: &IdentityRecoveryRecord, encoded: Vec<u8>)
        requires
            old(self).wf(),
            bundle::recovery_encoding(record@) == Ok::<Seq<u8>, SignalError>(encoded@),
        ensures
            final(self).wf(),
            final(self)@ == (StateView {
                records: RecordsView {
                    recoveries: old(self)@.records.recoveries.push(recovery_row(record@)),
                    ..old(self)@.records
                },
                ..old(self)@
            }),
    {
        let ghost before = self.records.recoveries@;
        self.records.recoveries.push(
            RecoveryRow {
                old_fingerprint: record.old_fingerprint(),
                new_fingerprint: record.new_fingerprint(),
                effective_at: record.effective_at,
                record: encoded,
            },
        );
        assert(recovery_views(self.records.recoveries@) =~= recovery_views(before).push(
            recovery_row(record@),
        ));
    }

    /// Accepts that a peer has replaced its identity, once the new fingerprint is
    /// confirmed and the old identity's signature was found valid.
    pub fn accept_recovery(
        &mut self,
        record: &IdentityRecoveryRecord,
        confirmed: bool,
        signature_valid: bool,
    ) -> (result: Result<(), DeviceError>)
        requires
            old(self).wf(),
        ensures
            final(self).wf(),
            match recovered(old(self)@, record@, confirmed, signature_valid) {
                Ok(after) => result is Ok && final(self)@ == after,
                Err(error) => result == Err::<(), DeviceError>(error) && *final(self) == *old(
                    self,
                ),
            },
    {
        if !confirmed || !record.confirmation {
            return Err(DeviceError::ConfirmationRequired);
        }
        if record.payload().is_err() {
            return Err(DeviceError::Frame(SignalError::FieldTooLarge));
        }
        if !signature_valid {
            return Err(DeviceError::InvalidRecoverySignature);
        }
        let peer = record.new_bundle.address();
        let signed_by_trusted = match self.trusted_identity(peer.as_str()) {
            Some(identity) => same_bytes(identity.as_slice(), record.old_identity.as_slice()),
            None => false,
        };
        if !signed_by_trusted {
            return Err(DeviceError::NotSignedByTrustedIdentity);
        }
        let encoded = match record.encode() {
            Ok(encoded) => encoded,
            Err(_) => {
                return Err(DeviceError::Frame(SignalError::FieldTooLarge));
            },
        };
        put_bytes(
            &mut self.store.identities,
            peer.as_str(),
            copy_bytes(record.new_bundle.identity_key.as_slice()),
        );
        remove_bytes(&mut self.records.sessions, peer.as_str());
        put_revocation(
            &mut self.records.revocations,
            peer.as_str(),
            Revocation {
                old_fingerprint: record.old_fingerprint(),
                new_fingerprint: Some(record.new_fingerprint()),
                effective_at: record.effective_at,
                reason: "identity replacement".to_owned(),
            },
        );
        self.push_recovery(record, encoded);
        self.persist_peer(peer.as_str());
        self.reset_runtime_store();
        Ok(())
    }

    /// Writes down a recovery record that this device issued.
    pub fn note_recovery(&mut self, record: &IdentityRecoveryRecord) -> (result: Result<
        (),
        DeviceError,
    >)
        requires
            old(self).wf(),
        ensures
            final(self).wf(),
            match bundle::recovery_encoding(record@) {
                Ok(_) => {
                    &&& result is Ok
                    &&& final(self)@ == (StateView {
                        records: RecordsView {
                            recoveries: old(self)@.records.recoveries.push(recovery_row(record@)),
                            ..old(self)@.records
                        },
                        ..old(self)@
                    })
                },
                Err(error) => {
                    &&& result == Err::<(), DeviceError>(DeviceError::Frame(error))
                    &&& *final(self) == *old(self)
                },
            },
    {
        match record.encode() {
            Err(error) => Err(DeviceError::Frame(error)),
            Ok(encoded) => {
                self.push_recovery(record, encoded);
                Ok(())
            },
        }
    }

    /// Writes a new identity down, while the old one is still in use.
    pub fn begin_identity(&mut self, identity_pair: Vec<u8>, registration_id: u32)
        requires
            old(self).wf(),
        ensures
            final(self).wf(),
            final(self)@ == (StateView {
                records: with_identity(old(self)@, identity_pair@, registration_id).records,
                ..old(self)@
            }),
    {
        self.records.identity_pair = identity_pair;
        self.records.registration_id = registration_id;
        self.records.sessions = no_bytes();
        self.records.trusted = no_bytes();
        self.records.prekeys = KeyTable::new();
        self.records.signed_prekeys = KeyTable::new();
        self.records.kyber_prekeys = KeyTable::new();
        self.records.signed_prekey_created_at = 0;
    }

    /// Gives the device a new identity: every session, every trusted identity and
    /// every key of the old one is gone.
    pub fn replace_identity(&mut self, identity_pair: Vec<u8>, registration_id: u32)
        requires
            old(self).wf(),
        ensures
            final(self).wf(),
            final(self)@ == with_identity(old(self)@, identity_pair@, registration_id),
    {
        self.begin_identity(identity_pair, registration_id);
        self.reset_runtime_store();
    }
}

// ---------------------------------------------------------------------------
// Who may be talked to
// ---------------------------------------------------------------------------

/// Whether a message may be encrypted for an identity of a peer, on a device that has
/// loaded the peer, and whether there is a session already.
pub open spec fn encryption_allowed(d: StateView, peer: Seq<char>, identity: Seq<u8>) -> Result<
    bool,
    DeviceError,
> {
    if revoked_by(d, peer) {
        Err(DeviceError::PeerRevoked)
    } else if trusted_by(d, peer) != Some(identity) {
        Err(DeviceError::PeerNotTrusted)
    } else {
        Ok(d.store.sessions.contains_key(peer))
    }
}

/// The envelope of a message that may be decrypted, on a device that has loaded the
/// sender.
pub open spec fn decryption_allowed(d: StateView, sender: Seq<char>, encoded: Seq<u8>) -> Result<
    EnvelopeView,
    DeviceError,
> {
    if revoked_by(d, sender) {
        Err(DeviceError::SenderRevoked)
    } else if trusted_by(d, sender) is None {
        Err(DeviceError::SenderNotTrusted)
    } else {
        match signal::envelope_decoding(encoded) {
            Ok(envelope) => Ok(envelope),
            Err(error) => Err(DeviceError::Frame(error)),
        }
    }
}

/// A device whose session with a peer has moved on.
pub open spec fn with_session(d: StateView, peer: Seq<char>, session: Seq<u8>) -> StateView {
    StateView {
        store: RuntimeView { sessions: d.store.sessions.insert(peer, session), ..d.store },
        ..d
    }
}

impl SqliteSignalState {
    /// Loads a peer, and says whether a message may be encrypted for an identity of
    /// it, and whether there is a session already.
    pub fn check_encrypt(&mut self, peer: &str, identity: &[u8]) -> (result: Result<
        bool,
        DeviceError,
    >)
        requires
            old(self).wf(),
        ensures
            final(self).wf(),
            final(self)@ == loaded(old(self)@, peer@),
            result == encryption_allowed(loaded(old(self)@, peer@), peer@, identity@),
    {
        self.load_peer(peer);
        if self.is_revoked(peer) {
            return Err(DeviceError::PeerRevoked);
        }
        let trusted = match self.trusted_identity(peer) {
            Some(known) => same_bytes(known.as_slice(), identity),
            None => false,
        };
        if !trusted {
            return Err(DeviceError::PeerNotTrusted);
        }
        Ok(self.store.sessions.get(peer).is_some())
    }

    /// Loads a sender, and says whether a message from it may be decrypted, and what
    /// its envelope is.
    pub fn check_decrypt(&mut self, sender: &str, encoded: &[u8]) -> (result: Result<
        SignalEnvelope,
        DeviceError,
    >)
        requires
            old(self).wf(),
        ensures
            final(self).wf(),
            final(self)@ == loaded(old(self)@, sender@),
            match decryption_allowed(loaded(old(self)@, sender@), sender@, encoded@) {
                Ok(value) => result matches Ok(envelope) && envelope@ == value,
                Err(error) => result == Err::<SignalEnvelope, DeviceError>(error),
            },
    {
        self.load_peer(sender);
        if self.is_revoked(sender) {
            return Err(DeviceError::SenderRevoked);
        }
        if self.trusted_identity(sender).is_none() {
            return Err(DeviceError::SenderNotTrusted);
        }
        match SignalEnvelope::decode(encoded) {
            Ok(envelope) => Ok(envelope),
            Err(error) => Err(DeviceError::Frame(error)),
        }
    }

    /// Takes the session with a peer that encryption or decryption has left.
    pub fn take_session(&mut self, peer: &str, session: Vec<u8>)
        requires
            old(self).wf(),
        ensures
            final(self).wf(),
            final(self)@ == with_session(old(self)@, peer@, session@),
    {
        put_bytes(&mut self.store.sessions, peer, session);
    }
}

/// A device that was revoked stays shut out, across restarts too: whatever identity
/// and whatever message it shows, nothing is encrypted for it and nothing from it is
/// decrypted.
pub proof fn law_revoked_device_is_shut_out(
    d: StateView,
    peer: Seq<char>,
    now: u64,
    identity: Seq<u8>,
    encoded: Seq<u8>,
)
    ensures
        ({
            let after = without_device(d, peer, now);
            let again = loaded(opened(after.records), peer);
            &&& encryption_allowed(loaded(after, peer), peer, identity) == Err::<bool, DeviceError>(
                DeviceError::PeerRevoked,
            )
            &&& decryption_allowed(loaded(after, peer), peer, encoded) == Err::<
                EnvelopeView,
                DeviceError,
            >(DeviceError::SenderRevoked)
            &&& encryption_allowed(again, peer, identity) == Err::<bool, DeviceError>(
                DeviceError::PeerRevoked,
            )
            &&& decryption_allowed(again, peer, encoded) == Err::<EnvelopeView, DeviceError>(
                DeviceError::SenderRevoked,
            )
        }),
{
}

/// Trusting a revoked device anew lets it in again, with the identity that is trusted
/// and with no other.
pub proof fn law_trust_lifts_revocation(
    d: StateView,
    peer: Seq<char>,
    identity: Seq<u8>,
    shown: Seq<u8>,
)
    requires
        trusting(d, peer, identity) is Ok,
    ensures
        ({
            let after = loaded(trusting(d, peer, identity)->Ok_0, peer);
            &&& !revoked_by(after, peer)
            &&& encryption_allowed(after, peer, shown) is Ok <==> shown == identity
        }),
{
}

/// After a peer has replaced its identity only the new one is let in, and the old
/// one is not.
pub proof fn law_only_replacement_is_let_in(
    d: StateView,
    record: RecoveryView,
    shown: Seq<u8>,
)
    requires
        recovered(d, record, true, true) is Ok,
    ensures
        ({
            let peer = bundle_peer(record.new_bundle);
            let after = loaded(recovered(d, record, true, true)->Ok_0, peer);
            encryption_allowed(after, peer, shown) is Ok <==> shown
                == record.new_bundle.identity_key
        }),
{
}

/// Trusting the identity that is trusted already changes nothing of what is trusted.
pub proof fn law_trust_is_idempotent(d: StateView, peer: Seq<char>, identity: Seq<u8>)
    requires
        trusting(d, peer, identity) is Ok,
    ensures
        ({
            let once = trusting(d, peer, identity)->Ok_0;
            trusting(once, peer, identity) == Ok::<StateView, DeviceError>(once)
        }),
{
    let once = trusting(d, peer, identity)->Ok_0;
    let twice = trusting(once, peer, identity);
    assert(twice is Ok);
    assert(twice->Ok_0.records.sessions =~= once.records.sessions);
    assert(twice->Ok_0.records.trusted =~= once.records.trusted);
    assert(twice->Ok_0.records.revocations =~= once.records.revocations);
    assert(twice->Ok_0.records.kyber_prekeys =~= once.records.kyber_prekeys);
    assert(twice->Ok_0.store.identities =~= once.store.identities);
}

/// Replacing the identity revokes every session: no peer is trusted and none has a
/// session afterwards, so nothing is encrypted or decrypted until trust is
/// established anew.
pub proof fn law_replaced_identity_trusts_nobody(
    d: StateView,
    identity_pair: Seq<u8>,
    registration_id: u32,
    peer: Seq<char>,
    shown: Seq<u8>,
    encoded: Seq<u8>,
)
    ensures
        ({
            let after = loaded(with_identity(d, identity_pair, registration_id), peer);
            &&& encryption_allowed(after, peer, shown) is Err
            &&& decryption_allowed(after, peer, encoded) is Err
            &&& !after.store.sessions.contains_key(peer)
        }),
{
}

// ---------------------------------------------------------------------------
// What one peer's changes leave to the others
// ---------------------------------------------------------------------------

/// Whether two tables hold the same for a key.
pub open spec fn agree_on<V>(
    left: Map<Seq<char>, V>,
    right: Map<Seq<char>, V>,
    key: Seq<char>,
) -> bool {
    &&& left.contains_key(key) <==> right.contains_key(key)
    &&& left.contains_key(key) ==> left[key] == right[key]
}

/// Whether two devices are written down alike but for the keys and what concerns one
/// peer: every other peer has the same session, trusted identity and revocation.
pub open spec fn alike_but_for(left: RecordsView, right: RecordsView, peer: Seq<char>) -> bool {
    &&& left.device == right.device
    &&& left.identity_pair == right.identity_pair
    &&& left.registration_id == right.registration_id
    &&& forall|other: Seq<char>|
        other != peer ==> #[trigger] agree_on(left.sessions, right.sessions, other)
    &&& forall|other: Seq<char>|
        other != peer ==> #[trigger] agree_on(left.trusted, right.trusted, other)
    &&& forall|other: Seq<char>|
        other != peer ==> #[trigger] agree_on(left.revocations, right.revocations, other)
}

/// Writing down a peer writes what the runtime holds of it, and keeps what was written
/// where the runtime holds nothing. Of every other peer the written session and the
/// written trusted identity stay, as do all revocations, recoveries, counts and the
/// identity. The prekeys are those of the runtime, and Kyber keys are only added.
pub proof fn law_persisting_touches_one_peer(d: StateView, peer: Seq<char>)
    ensures
        alike_but_for(persisted(d, peer).records, d.records, peer),
        persisted(d, peer).records.revocations == d.records.revocations,
        persisted(d, peer).records.recoveries == d.records.recoveries,
        persisted(d, peer).records.failures == d.records.failures,
        persisted(d, peer).records.signed_prekey_created_at
            == d.records.signed_prekey_created_at,
        persisted(d, peer).store == d.store,
        persisted(d, peer).name == d.name,
        persisted(d, peer).device_id == d.device_id,
        ({
            let after = persisted(d, peer).records;
            &&& d.store.sessions.contains_key(peer) ==> after.sessions.contains_key(peer)
                && after.sessions[peer] == d.store.sessions[peer]
            &&& !d.store.sessions.contains_key(peer) ==> agree_on(
                after.sessions,
                d.records.sessions,
                peer,
            )
            &&& d.store.identities.contains_key(peer) ==> after.trusted.contains_key(peer)
                && after.trusted[peer] == d.store.identities[peer]
            &&& !d.store.identities.contains_key(peer) ==> agree_on(
                after.trusted,
                d.records.trusted,
                peer,
            )
            &&& after.prekeys == d.store.prekeys
            &&& after.signed_prekeys == d.store.signed_prekeys
            &&& forall|id: u32| #[trigger]
                after.kyber_prekeys.contains_key(id) <==> d.store.kyber_prekeys.contains_key(id)
                    || d.records.kyber_prekeys.contains_key(id)
            &&& forall|id: u32|
                d.store.kyber_prekeys.contains_key(id) ==> #[trigger] after.kyber_prekeys[id]
                    == d.store.kyber_prekeys[id]
            &&& forall|id: u32|
                d.records.kyber_prekeys.contains_key(id) && !d.store.kyber_prekeys.contains_key(id)
                    ==> #[trigger] after.kyber_prekeys[id] == d.records.kyber_prekeys[id]
        }),
{
}

/// Loading a peer brings what is written of it into the runtime. Nothing that is
/// written changes, and the runtime keeps what it holds of every other peer.
pub proof fn law_loading_touches_one_peer(d: StateView, peer: Seq<char>)
    ensures
        loaded(d, peer).records == d.records,
        loaded(d, peer).name == d.name,
        loaded(d, peer).device_id == d.device_id,
        loaded(d, peer).store.prekeys == d.store.prekeys,
        loaded(d, peer).store.signed_prekeys == d.store.signed_prekeys,
        loaded(d, peer).store.kyber_prekeys == d.store.kyber_prekeys,
        agree_on(
            loaded(d, peer).store.sessions,
            if d.records.sessions.contains_key(peer) {
                d.records.sessions
            } else {
                d.store.sessions
            },
            peer,
        ),
        agree_on(
            loaded(d, peer).store.identities,
            if d.records.trusted.contains_key(peer) {
                d.records.trusted
            } else {
                d.store.identities
            },
            peer,
        ),
        forall|other: Seq<char>|
            other != peer ==> #[trigger] agree_on(
                loaded(d, peer).store.sessions,
                d.store.sessions,
                other,
            ),
        forall|other: Seq<char>|
            other != peer ==> #[trigger] agree_on(
                loaded(d, peer).store.identities,
                d.store.identities,
                other,
            ),
{
}

/// A device that is opened has the keys that are written and knows no peer before it
/// is loaded. Its name and number are those that are written.
pub proof fn law_opened_device_has_what_is_written(records: RecordsView, peer: Seq<char>)
    ensures
        opened(records).records == records,
        opened(records).store.prekeys == records.prekeys,
        opened(records).store.signed_prekeys == records.signed_prekeys,
        opened(records).store.kyber_prekeys == records.kyber_prekeys,
        !opened(records).store.sessions.contains_key(peer),
        !opened(records).store.identities.contains_key(peer),
        agree_on(loaded(opened(records), peer).store.sessions, records.sessions, peer),
        agree_on(loaded(opened(records), peer).store.identities, records.trusted, peer),
        records.device matches Some(device) ==> opened(records).name == device.0
            && opened(records).device_id == device.1,
{
}

/// Encryption for a peer is allowed exactly where the peer is trusted with the identity
/// that is shown, and is neither revoked nor replaced by another identity. It says
/// whether there is a session.
pub proof fn law_who_is_encrypted_for(d: StateView, peer: Seq<char>, identity: Seq<u8>)
    ensures
        encryption_allowed(d, peer, identity) is Ok <==> {
            &&& d.store.identities.contains_key(peer)
            &&& d.store.identities[peer] == identity
            &&& d.records.revocations.contains_key(peer)
                ==> d.records.revocations[peer].new_fingerprint == Some(text::hex(identity))
        },
        encryption_allowed(d, peer, identity) matches Ok(found) ==> (found
            <==> d.store.sessions.contains_key(peer)),
        encryption_allowed(d, peer, identity) matches Err(error) ==> {
            ||| error == DeviceError::PeerRevoked && d.records.revocations.contains_key(peer)
            ||| error == DeviceError::PeerNotTrusted && !(d.store.identities.contains_key(peer)
                && d.store.identities[peer] == identity)
        },
{
}

/// Decryption from a sender is allowed exactly where the sender is trusted, is neither
/// revoked nor replaced by another identity, and the bytes are an envelope, which is
/// the one that is decrypted.
pub proof fn law_who_is_decrypted_from(d: StateView, sender: Seq<char>, encoded: Seq<u8>)
    ensures
        decryption_allowed(d, sender, encoded) is Ok <==> {
            &&& d.store.identities.contains_key(sender)
            &&& d.records.revocations.contains_key(sender)
                ==> d.records.revocations[sender].new_fingerprint == Some(
                text::hex(d.store.identities[sender]),
            )
            &&& signal::envelope_decoding(encoded) is Ok
        },
        decryption_allowed(d, sender, encoded) matches Ok(envelope) ==> signal::envelope_decoding(
            encoded,
        ) == Ok::<EnvelopeView, SignalError>(envelope),
{
}

/// Two devices that hold the same of a peer treat it alike.
pub proof fn law_peers_are_treated_by_what_is_held(
    left: StateView,
    right: StateView,
    peer: Seq<char>,
    identity: Seq<u8>,
    encoded: Seq<u8>,
)
    requires
        agree_on(left.store.sessions, right.store.sessions, peer),
        agree_on(left.store.identities, right.store.identities, peer),
        agree_on(left.records.revocations, right.records.revocations, peer),
    ensures
        encryption_allowed(left, peer, identity) == encryption_allowed(right, peer, identity),
        decryption_allowed(left, peer, encoded) == decryption_allowed(right, peer, encoded),
{
}

/// A peer of whom the same is written in two devices is treated alike once they are
/// opened again and the peer is loaded.
pub proof fn law_reopened_peers_are_treated_alike(
    left: RecordsView,
    right: RecordsView,
    changed: Seq<char>,
    other: Seq<char>,
    identity: Seq<u8>,
    encoded: Seq<u8>,
)
    requires
        alike_but_for(left, right, changed),
        other != changed,
    ensures
        ({
            let now = loaded(opened(left), other);
            let before = loaded(opened(right), other);
            &&& agree_on(now.store.sessions, before.store.sessions, other)
            &&& agree_on(now.store.identities, before.store.identities, other)
            &&& encryption_allowed(now, other, identity) == encryption_allowed(
                before,
                other,
                identity,
            )
            &&& decryption_allowed(now, other, encoded) == decryption_allowed(
                before,
                other,
                encoded,
            )
        }),
{
    assert(agree_on(left.sessions, right.sessions, other));
    assert(agree_on(left.trusted, right.trusted, other));
    assert(agree_on(left.revocations, right.revocations, other));
}

/// Trusting a peer is refused exactly where another identity is held for it. Otherwise
/// the identity is written and held, a revocation of the peer is gone, and its session
/// is what it was. Every other peer keeps its session, its trusted identity and its
/// revocation, and is treated as before once the device is opened again.
pub proof fn law_trusting_touches_one_peer(
    d: StateView,
    peer: Seq<char>,
    identity: Seq<u8>,
    other: Seq<char>,
    shown: Seq<u8>,
    encoded: Seq<u8>,
)
    requires
        other != peer,
    ensures
        trusting(d, peer, identity) is Err <==> d.store.identities.contains_key(peer)
            && d.store.identities[peer] != identity,
        trusting(d, peer, identity) matches Err(error) ==> error
            == DeviceError::PeerIdentityChanged,
        trusting(d, peer, identity) matches Ok(after) ==> {
            &&& after.records.trusted.contains_key(peer)
            &&& after.records.trusted[peer] == identity
            &&& after.store.identities.contains_key(peer)
            &&& after.store.identities[peer] == identity
            &&& !after.records.revocations.contains_key(peer)
            &&& agree_on(after.store.sessions, d.store.sessions, peer)
            &&& !d.store.sessions.contains_key(peer) ==> agree_on(
                after.records.sessions,
                d.records.sessions,
                peer,
            )
            &&& alike_but_for(after.records, d.records, peer)
            &&& after.records.recoveries == d.records.recoveries
            &&& after.records.prekeys == d.store.prekeys
            &&& agree_on(after.store.identities, d.store.identities, other)
            &&& agree_on(after.store.sessions, d.store.sessions, other)
            &&& encryption_allowed(loaded(opened(after.records), other), other, shown)
                == encryption_allowed(loaded(opened(d.records), other), other, shown)
            &&& decryption_allowed(loaded(opened(after.records), other), other, encoded)
                == decryption_allowed(loaded(opened(d.records), other), other, encoded)
        },
{
    if trusting(d, peer, identity) is Ok {
        let after = trusting(d, peer, identity)->Ok_0;
        assert(alike_but_for(after.records, d.records, peer));
        law_reopened_peers_are_treated_alike(
            after.records,
            d.records,
            peer,
            other,
            shown,
            encoded,
        );
    }
}

/// Revoking a peer takes its session and its trust, and writes down which identity was
/// revoked and when. The keys stay, and every other peer is treated as before.
pub proof fn law_revoking_touches_one_peer(
    d: StateView,
    peer: Seq<char>,
    now: u64,
    other: Seq<char>,
    shown: Seq<u8>,
    encoded: Seq<u8>,
)
    requires
        other != peer,
    ensures
        ({
            let after = without_device(d, peer, now);
            &&& !after.records.sessions.contains_key(peer)
            &&& !after.records.trusted.contains_key(peer)
            &&& after.records.revocations.contains_key(peer)
            &&& after.records.revocations[peer].new_fingerprint is None
            &&& after.records.revocations[peer].effective_at == now
            &&& after.records.revocations[peer].reason == "explicit device revocation"@
            &&& after.records.revocations[peer].old_fingerprint == (
            if d.store.identities.contains_key(peer) {
                text::hex(d.store.identities[peer])
            } else {
                "unknown"@
            })
            &&& alike_but_for(after.records, d.records, peer)
            &&& after.records.recoveries == d.records.recoveries
            &&& after.records.prekeys == d.records.prekeys
            &&& after.records.signed_prekeys == d.records.signed_prekeys
            &&& after.records.kyber_prekeys == d.records.kyber_prekeys
            &&& after.name == d.name
            &&& after.device_id == d.device_id
            &&& !after.store.sessions.contains_key(peer)
            &&& !after.store.identities.contains_key(peer)
            &&& encryption_allowed(loaded(after, other), other, shown) == encryption_allowed(
                loaded(opened(d.records), other),
                other,
                shown,
            )
            &&& decryption_allowed(loaded(after, other), other, encoded) == decryption_allowed(
                loaded(opened(d.records), other),
                other,
                encoded,
            )
        }),
{
    let after = without_device(d, peer, now);
    law_reopened_peers_are_treated_alike(after.records, d.records, peer, other, shown, encoded);
    law_peers_are_treated_by_what_is_held(
        loaded(after, other),
        loaded(opened(after.records), other),
        other,
        shown,
        encoded,
    );
}

/// A recovery is taken only where the user and the record confirm it, the signature is
/// valid and the old identity is the one that is trusted. Then the new identity is
/// trusted, the written session is gone unless the runtime still holds one, the
/// replacement and the record are written down, and no other peer is touched.
pub proof fn law_recovery_touches_one_peer(
    d: StateView,
    record: RecoveryView,
    confirmed: bool,
    signature_valid: bool,
    other: Seq<char>,
    shown: Seq<u8>,
    encoded: Seq<u8>,
)
    requires
        other != signal::address_text(record.new_bundle.name, record.new_bundle.device_id),
    ensures
        recovered(d, record, confirmed, signature_valid) matches Ok(after) ==> {
            let peer = signal::address_text(
                record.new_bundle.name,
                record.new_bundle.device_id,
            );
            &&& confirmed && record.confirmation && signature_valid
            &&& d.store.identities.contains_key(peer)
            &&& d.store.identities[peer] == record.old_identity
            &&& after.records.trusted.contains_key(peer)
            &&& after.records.trusted[peer] == record.new_bundle.identity_key
            &&& !d.store.sessions.contains_key(peer) ==> !after.records.sessions.contains_key(peer)
            &&& after.records.revocations.contains_key(peer)
            &&& after.records.revocations[peer].old_fingerprint == text::hex(record.old_identity)
            &&& after.records.revocations[peer].new_fingerprint == Some(
                text::hex(record.new_bundle.identity_key),
            )
            &&& after.records.revocations[peer].effective_at == record.effective_at
            &&& after.records.revocations[peer].reason == "identity replacement"@
            &&& after.records.recoveries.len() == d.records.recoveries.len() + 1
            &&& forall|i: int|
                0 <= i < d.records.recoveries.len() ==> #[trigger] after.records.recoveries[i]
                    == d.records.recoveries[i]
            &&& Ok::<Seq<u8>, SignalError>(after.records.recoveries.last().record)
                == bundle::recovery_encoding(record)
            &&& after.records.recoveries.last().effective_at == record.effective_at
            &&& after.records.recoveries.last().old_fingerprint == text::hex(record.old_identity)
            &&& after.records.recoveries.last().new_fingerprint == text::hex(
                record.new_bundle.identity_key,
            )
            &&& alike_but_for(after.records, d.records, peer)
            &&& encryption_allowed(loaded(after, other), other, shown) == encryption_allowed(
                loaded(opened(d.records), other),
                other,
                shown,
            )
            &&& decryption_allowed(loaded(after, other), other, encoded) == decryption_allowed(
                loaded(opened(d.records), other),
                other,
                encoded,
            )
        },
        recovered(d, record, confirmed, signature_valid) is Ok <==> {
            let peer = signal::address_text(
                record.new_bundle.name,
                record.new_bundle.device_id,
            );
            &&& confirmed && record.confirmation && signature_valid
            &&& d.store.identities.contains_key(peer)
            &&& d.store.identities[peer] == record.old_identity
            &&& bundle::recovery_fits(record)
            &&& bundle::recovery_encoding(record) is Ok
        },
        recovered(d, record, confirmed, signature_valid) matches Err(error) ==> {
            ||| error == DeviceError::ConfirmationRequired && !(confirmed && record.confirmation)
            ||| error == DeviceError::InvalidRecoverySignature && !signature_valid
            ||| error == DeviceError::NotSignedByTrustedIdentity
            ||| error == DeviceError::Frame(SignalError::FieldTooLarge)
        },
{
    if recovered(d, record, confirmed, signature_valid) is Ok {
        let peer = signal::address_text(record.new_bundle.name, record.new_bundle.device_id);
        let after = recovered(d, record, confirmed, signature_valid)->Ok_0;
        assert(alike_but_for(after.records, d.records, peer));
        law_reopened_peers_are_treated_alike(
            after.records,
            d.records,
            peer,
            other,
            shown,
            encoded,
        );
        law_peers_are_treated_by_what_is_held(
            loaded(after, other),
            loaded(opened(after.records), other),
            other,
            shown,
            encoded,
        );
    }
}

/// A session that the runtime takes for a peer is that peer's, and no other is touched.
pub proof fn law_session_is_taken_for_one_peer(d: StateView, peer: Seq<char>, session: Seq<u8>)
    ensures
        with_session(d, peer, session).records == d.records,
        with_session(d, peer, session).store.sessions.contains_key(peer),
        with_session(d, peer, session).store.sessions[peer] == session,
        with_session(d, peer, session).store.identities == d.store.identities,
        with_session(d, peer, session).store.prekeys == d.store.prekeys,
        forall|other: Seq<char>|
            other != peer ==> #[trigger] agree_on(
                with_session(d, peer, session).store.sessions,
                d.store.sessions,
                other,
            ),
{
}

/// A new identity takes the place of the old one with nothing left of the keys and the
/// peers that went with it. The address, the revocations, the recoveries and the
/// failures stay.
pub proof fn law_new_identity_starts_over(d: StateView, pair: Seq<u8>, registration_id: u32)
    ensures
        ({
            let after = with_identity(d, pair, registration_id);
            &&& after.records.identity_pair == pair
            &&& after.records.registration_id == registration_id
            &&& after.records.sessions == Map::<Seq<char>, Seq<u8>>::empty()
            &&& after.records.trusted == Map::<Seq<char>, Seq<u8>>::empty()
            &&& after.records.prekeys == Map::<u32, Seq<u8>>::empty()
            &&& after.records.signed_prekeys == Map::<u32, Seq<u8>>::empty()
            &&& after.records.kyber_prekeys == Map::<u32, Seq<u8>>::empty()
            &&& after.records.signed_prekey_created_at == 0
            &&& after.records.device == d.records.device
            &&& after.records.revocations == d.records.revocations
            &&& after.records.recoveries == d.records.recoveries
            &&& after.records.failures == d.records.failures
            &&& after.store == opened(after.records).store
            &&& after.name == d.name
            &&& after.device_id == d.device_id
        }),
{
}

/// A device that is given an address keeps everything else that is written and held.
pub proof fn law_address_is_all_that_is_given(d: StateView, name: Seq<char>, device_id: u32)
    ensures
        with_address(d, name, device_id) is Err <==> (d.records.device is Some
            && d.records.device->0 != (name, device_id)),
        with_address(d, name, device_id) matches Ok(after) ==> {
            &&& after.records.device == Some((name, device_id))
            &&& after.name == name
            &&& after.device_id == device_id
            &&& after.store == d.store
            &&& after.records == (RecordsView { device: after.records.device, ..d.records })
        },
{
}

} // verus!
