//! What a device does step by step: key maintenance, encryption, decryption and the
//! replacement of its identity.
//!
//! Keys are made, messages are encrypted and records are written outside. Each
//! operation says what is to be done next, and takes the reply. Where records could
//! not be written, what is written down stays what it was.
use vstd::prelude::*;

use crate::bundle;
use crate::bundle::{BundleView, IdentityRecoveryRecord, RecoveryView, SignalPreKeyBundle};
use crate::bytes::copy_bytes;
use crate::device;
use crate::device::{
    registration_id, DeviceError, DeviceRecords, RecordsView, RuntimeView, SqliteSignalState,
    StateView, StatusView, UNCONFIGURED,
};
use crate::device_keys;
use crate::device_keys::{KeyMaintenanceReport, KeyPlan, KeysView, NewKeys, PlanView};
use crate::primitives;
use crate::signal;
use crate::signal::{
    EnvelopeView, MessageId, SafeChatMessage, SafeChatMessageView, SignalEnvelope, SignalError,
};
use crate::table;
use crate::table::{KeyRow, KeyTable};
use crate::text;
use crate::text::same_text;

verus! {

// ---------------------------------------------------------------------------
// Actions and replies
// ---------------------------------------------------------------------------

/// What an operation needs to be done.
#[derive(Debug)]
pub enum DeviceAction {
    /// Make keys.
    MakeKeys(KeyPlan),
    /// Write the records of the device down, all of them or none.
    Save,
    /// Encrypt for the peer, in the session that there is or in a new one.
    Encrypt { has_session: bool, plaintext: Vec<u8> },
    /// Decrypt a message of the sender.
    Decrypt { envelope: SignalEnvelope },
    /// Make a new identity.
    GenerateIdentity,
    /// Make the public bundle of the device.
    ExportBundle,
    /// Sign with the old identity.
    Sign { payload: Vec<u8> },
    /// Nothing: the operation has succeeded.
    Done,
    /// Nothing: the operation has failed.
    Fail(DeviceError),
}

/// The contents of a [`DeviceAction`].
pub enum ActionView {
    MakeKeys(PlanView),
    Save,
    Encrypt { has_session: bool, plaintext: Seq<u8> },
    Decrypt { envelope: EnvelopeView },
    GenerateIdentity,
    ExportBundle,
    Sign { payload: Seq<u8> },
    Done,
    Fail(DeviceError),
}

impl View for DeviceAction {
    type V = ActionView;

    open spec fn view(&self) -> ActionView {
        match *self {
            DeviceAction::MakeKeys(plan) => ActionView::MakeKeys(plan@),
            DeviceAction::Save => ActionView::Save,
            DeviceAction::Encrypt { has_session, plaintext } => ActionView::Encrypt {
                has_session,
                plaintext: plaintext@,
            },
            DeviceAction::Decrypt { envelope } => ActionView::Decrypt { envelope: envelope@ },
            DeviceAction::GenerateIdentity => ActionView::GenerateIdentity,
            DeviceAction::ExportBundle => ActionView::ExportBundle,
            DeviceAction::Sign { payload } => ActionView::Sign { payload: payload@ },
            DeviceAction::Done => ActionView::Done,
            DeviceAction::Fail(error) => ActionView::Fail(error),
        }
    }
}

/// What came of an action.
#[derive(Debug)]
pub enum DeviceReply {
    /// The keys that were made.
    Keys(NewKeys),
    /// The records were written down.
    Saved,
    /// The session after encrypting, and the ciphertext.
    Encrypted { session: Vec<u8>, message_type: u8, ciphertext: Vec<u8> },
    /// The plaintext, and what decrypting left of the session and of the keys. A
    /// one-time prekey that was used up is no longer among them.
    Decrypted {
        plaintext: Vec<u8>,
        session: Vec<u8>,
        prekeys: Vec<KeyRow>,
        kyber_prekeys: Vec<KeyRow>,
    },
    /// A new identity, and random bits for its registration number.
    Identity { pair: Vec<u8>, random: u32 },
    /// The public bundle.
    Bundle(SignalPreKeyBundle),
    /// The signature.
    Signature(Vec<u8>),
    /// It could not be done.
    Failed(String),
}

/// The contents of a [`DeviceReply`].
pub enum ReplyView {
    Keys(KeysView),
    Saved,
    Encrypted { session: Seq<u8>, message_type: u8, ciphertext: Seq<u8> },
    Decrypted {
        plaintext: Seq<u8>,
        session: Seq<u8>,
        prekeys: Map<u32, Seq<u8>>,
        kyber_prekeys: Map<u32, Seq<u8>>,
    },
    Identity { pair: Seq<u8>, random: u32 },
    Bundle(BundleView),
    Signature(Seq<u8>),
    Failed(Seq<char>),
}

/// What rows hold, the last row of a number deciding.
pub open spec fn rows_held(rows: Seq<KeyRow>) -> Map<u32, Seq<u8>> {
    table::put_rows(Map::empty(), rows)
}

impl View for DeviceReply {
    type V = ReplyView;

    open spec fn view(&self) -> ReplyView {
        match *self {
            DeviceReply::Keys(keys) => ReplyView::Keys(keys@),
            DeviceReply::Saved => ReplyView::Saved,
            DeviceReply::Encrypted { session, message_type, ciphertext } => ReplyView::Encrypted {
                session: session@,
                message_type,
                ciphertext: ciphertext@,
            },
            DeviceReply::Decrypted { plaintext, session, prekeys, kyber_prekeys } => {
                ReplyView::Decrypted {
                    plaintext: plaintext@,
                    session: session@,
                    prekeys: rows_held(prekeys@),
                    kyber_prekeys: rows_held(kyber_prekeys@),
                }
            },
            DeviceReply::Identity { pair, random } => ReplyView::Identity { pair: pair@, random },
            DeviceReply::Bundle(bundle) => ReplyView::Bundle(bundle@),
            DeviceReply::Signature(signature) => ReplyView::Signature(signature@),
            DeviceReply::Failed(reason) => ReplyView::Failed(reason@),
        }
    }
}

/// The contents of records that may be missing.
pub open spec fn kept_view(records: Option<DeviceRecords>) -> Option<RecordsView> {
    match records {
        Some(records) => Some(records@),
        None => None,
    }
}

/// Records that may be missing are in order.
pub open spec fn kept_wf(records: Option<DeviceRecords>) -> bool {
    records matches Some(records) ==> records.wf()
}

/// A device whose records are again those that are written down.
pub open spec fn restored(d: StateView, before: Option<RecordsView>) -> StateView {
    match before {
        Some(records) => StateView { records, ..d },
        None => d,
    }
}

/// Gives a device the records back that are written down.
fn restore(state: &mut SqliteSignalState, before: Option<DeviceRecords>)
    requires
        old(state).wf(),
        kept_wf(before),
    ensures
        final(state).wf(),
        final(state)@ == restored(old(state)@, kept_view(before)),
{
    if let Some(records) = before {
        state.records = records;
    }
}

// ---------------------------------------------------------------------------
// Key maintenance
// ---------------------------------------------------------------------------

/// How far key maintenance is.
#[derive(Clone, Copy, Debug, PartialEq, Eq, Structural)]
pub enum MaintenanceStage {
    MakingKeys,
    Saving,
    SavingFailure,
    Ended,
}

/// Key maintenance.
#[derive(Debug)]
pub struct Maintenance {
    pub stage: MaintenanceStage,
    pub plan: KeyPlan,
    pub now: u64,
    /// What is written down while something else is to be.
    pub before: Option<DeviceRecords>,
    /// Whether a key has changed.
    pub changed: bool,
    /// Why it fails, where it does.
    pub error: DeviceError,
    pub report: KeyMaintenanceReport,
}

/// The contents of a [`Maintenance`].
#[verifier::ext_equal]
pub struct MaintenanceView {
    pub stage: MaintenanceStage,
    pub plan: PlanView,
    pub now: u64,
    pub before: Option<RecordsView>,
    pub changed: bool,
    pub error: DeviceError,
    pub report: KeyMaintenanceReport,
}

impl View for Maintenance {
    type V = MaintenanceView;

    open spec fn view(&self) -> MaintenanceView {
        MaintenanceView {
            stage: self.stage,
            plan: self.plan@,
            now: self.now,
            before: kept_view(self.before),
            changed: self.changed,
            error: self.error,
            report: self.report,
        }
    }
}

/// Maintenance that asks for keys asks for those that the device lacks.
pub open spec fn maintenance_wf(m: MaintenanceView, d: StateView) -> bool {
    m.stage == MaintenanceStage::MakingKeys ==> {
        &&& device_keys::has_room(d.store)
        &&& m.plan == device_keys::planned(d.store, d.records.signed_prekey_created_at, m.now)
    }
}

/// A report on nothing.
pub open spec fn no_report() -> KeyMaintenanceReport {
    KeyMaintenanceReport {
        one_time_prekeys: 0,
        signed_prekeys: 0,
        replenished: false,
        rotated: false,
        consecutive_failures: 0,
    }
}

/// A plan for nothing.
pub open spec fn no_plan() -> PlanView {
    PlanView { first_keys: false, prekey_ids: Seq::empty(), signed_prekey_id: None }
}

/// Key maintenance that has not begun.
pub open spec fn idle_maintenance(now: u64) -> MaintenanceView {
    MaintenanceView {
        stage: MaintenanceStage::Ended,
        plan: no_plan(),
        now,
        before: None,
        changed: false,
        error: DeviceError::OutsideFailed,
        report: no_report(),
    }
}

/// How key maintenance begins: with the keys that are to be made, or, where the numbers
/// do not suffice for them, with a failure that is counted.
pub open spec fn maintenance_started(d: StateView, now: u64) -> (
    MaintenanceView,
    StateView,
    ActionView,
) {
    if device_keys::has_room(d.store) {
        let plan = device_keys::planned(d.store, d.records.signed_prekey_created_at, now);
        (
            MaintenanceView { stage: MaintenanceStage::MakingKeys, plan, ..idle_maintenance(now) },
            d,
            ActionView::MakeKeys(plan),
        )
    } else {
        (
            MaintenanceView {
                stage: MaintenanceStage::SavingFailure,
                before: Some(d.records),
                error: DeviceError::NoPrekeyNumber,
                ..idle_maintenance(now)
            },
            device_keys::failed(d, making_failed("no prekey number is left"@), now),
            ActionView::Save,
        )
    }
}

/// Why keys could not be made.
pub open spec fn making_failed(reason: Seq<char>) -> Seq<char> {
    "maintaining Signal key inventory: "@ + reason
}

/// Why keys could not be written down.
pub open spec fn saving_failed(reason: Seq<char>) -> Seq<char> {
    "persisting Signal key lifecycle state: "@ + reason
}

/// How key maintenance goes on. Keys that could not be made or written down are
/// counted as a failure. Where no key has changed, all there is to write down is that
/// a run of failures is over, and nothing is counted.
pub open spec fn maintenance_step(m: MaintenanceView, d: StateView, reply: ReplyView) -> (
    MaintenanceView,
    StateView,
    ActionView,
) {
    let ended = MaintenanceView { stage: MaintenanceStage::Ended, ..m };
    match (m.stage, reply) {
        (MaintenanceStage::MakingKeys, ReplyView::Keys(keys)) if device_keys::keys_for(
            keys,
            m.plan,
        ) => {
            let after = device_keys::maintained(d, keys, m.now);
            (
                MaintenanceView {
                    stage: MaintenanceStage::Saving,
                    before: Some(d.records),
                    changed: device_keys::keys_changed(d.store, m.plan, keys),
                    report: device_keys::maintenance_report(
                        d.store,
                        after.store,
                        m.plan.signed_prekey_id is Some,
                    ),
                    ..m
                },
                after,
                ActionView::Save,
            )
        },
        (MaintenanceStage::MakingKeys, ReplyView::Failed(reason)) => (
            MaintenanceView {
                stage: MaintenanceStage::SavingFailure,
                before: Some(d.records),
                ..m
            },
            device_keys::failed(d, making_failed(reason), m.now),
            ActionView::Save,
        ),
        (MaintenanceStage::Saving, ReplyView::Saved) => (ended, d, ActionView::Done),
        (MaintenanceStage::Saving, ReplyView::Failed(_)) if !m.changed => (
            MaintenanceView { before: None, ..ended },
            restored(d, m.before),
            ActionView::Fail(DeviceError::OutsideFailed),
        ),
        (MaintenanceStage::Saving, ReplyView::Failed(reason)) => {
            let back = restored(d, m.before);
            (
                MaintenanceView {
                    stage: MaintenanceStage::SavingFailure,
                    before: Some(back.records),
                    ..m
                },
                device_keys::failed(back, saving_failed(reason), m.now),
                ActionView::Save,
            )
        },
        (MaintenanceStage::SavingFailure, ReplyView::Saved) => (
            ended,
            d,
            ActionView::Fail(m.error),
        ),
        (MaintenanceStage::SavingFailure, ReplyView::Failed(_)) => (
            MaintenanceView { before: None, ..ended },
            restored(d, m.before),
            ActionView::Fail(m.error),
        ),
        _ => (ended, d, ActionView::Fail(DeviceError::UnexpectedReply)),
    }
}

fn idle(now: u64) -> (maintenance: Maintenance)
    ensures
        maintenance.wf(),
        maintenance@ == idle_maintenance(now),
{
    let maintenance = Maintenance {
        stage: MaintenanceStage::Ended,
        plan: KeyPlan { first_keys: false, prekey_ids: Vec::new(), signed_prekey_id: None },
        now,
        before: None,
        changed: false,
        error: DeviceError::OutsideFailed,
        report: KeyMaintenanceReport {
            one_time_prekeys: 0,
            signed_prekeys: 0,
            replenished: false,
            rotated: false,
            consecutive_failures: 0,
        },
    };
    assert(maintenance@ =~= idle_maintenance(now));
    maintenance
}

fn copy_plan(plan: &KeyPlan) -> (copy: KeyPlan)
    ensures
        copy@ == plan@,
{
    KeyPlan {
        first_keys: plan.first_keys,
        prekey_ids: vstd::slice::slice_to_vec(plan.prekey_ids.as_slice()),
        signed_prekey_id: plan.signed_prekey_id,
    }
}

impl SqliteSignalState {
    /// Begins to maintain the keys of the device.
    pub fn maintain_key_inventory(&mut self, now: u64) -> (started: (Maintenance, DeviceAction))
        requires
            old(self).wf(),
        ensures
            final(self).wf(),
            started.0.wf(),
            maintenance_wf(started.0@, final(self)@),
            (started.0@, final(self)@, started.1@) == maintenance_started(old(self)@, now),
    {
        let mut maintenance = idle(now);
        if !self.prekeys_have_room() {
            maintenance.before = Some(self.records.copy());
            maintenance.stage = MaintenanceStage::SavingFailure;
            maintenance.error = DeviceError::NoPrekeyNumber;
            let mut error = "maintaining Signal key inventory: ".to_owned();
            error.append("no prekey number is left");
            self.record_maintenance_failure(error.as_str(), now);
            return (maintenance, DeviceAction::Save);
        }
        let plan = self.plan_key_inventory(now);
        maintenance.stage = MaintenanceStage::MakingKeys;
        maintenance.plan = copy_plan(&plan);
        (maintenance, DeviceAction::MakeKeys(plan))
    }
}

impl Maintenance {
    /// The records that are kept are in order.
    pub open spec fn wf(self) -> bool {
        kept_wf(self.before)
    }

    /// Takes a reply, and says what is to be done next.
    pub fn step(&mut self, state: &mut SqliteSignalState, reply: DeviceReply) -> (action:
        DeviceAction)
        requires
            old(self).wf(),
            old(state).wf(),
            maintenance_wf(old(self)@, old(state)@),
        ensures
            final(self).wf(),
            final(state).wf(),
            maintenance_wf(final(self)@, final(state)@),
            (final(self)@, final(state)@, action@) == maintenance_step(
                old(self)@,
                old(state)@,
                reply@,
            ),
    {
        match (self.stage, reply) {
            (MaintenanceStage::MakingKeys, DeviceReply::Keys(keys)) => {
                if !keys.fit(&self.plan) {
                    self.stage = MaintenanceStage::Ended;
                    return DeviceAction::Fail(DeviceError::UnexpectedReply);
                }
                self.before = Some(state.records.copy());
                let (report, changed) = state.take_keys(&self.plan, keys, self.now);
                self.report = report;
                self.changed = changed;
                self.stage = MaintenanceStage::Saving;
                DeviceAction::Save
            },
            (MaintenanceStage::MakingKeys, DeviceReply::Failed(reason)) => {
                self.before = Some(state.records.copy());
                let mut error = "maintaining Signal key inventory: ".to_owned();
                error.append(reason.as_str());
                state.record_maintenance_failure(error.as_str(), self.now);
                self.stage = MaintenanceStage::SavingFailure;
                DeviceAction::Save
            },
            (MaintenanceStage::Saving, DeviceReply::Saved) => {
                self.stage = MaintenanceStage::Ended;
                DeviceAction::Done
            },
            (MaintenanceStage::Saving, DeviceReply::Failed(reason)) => {
                let before = self.before.take();
                restore(state, before);
                if !self.changed {
                    self.stage = MaintenanceStage::Ended;
                    return DeviceAction::Fail(DeviceError::OutsideFailed);
                }
                self.before = Some(state.records.copy());
                let mut error = "persisting Signal key lifecycle state: ".to_owned();
                error.append(reason.as_str());
                state.record_maintenance_failure(error.as_str(), self.now);
                self.stage = MaintenanceStage::SavingFailure;
                DeviceAction::Save
            },
            (MaintenanceStage::SavingFailure, DeviceReply::Saved) => {
                self.stage = MaintenanceStage::Ended;
                DeviceAction::Fail(self.error)
            },
            (MaintenanceStage::SavingFailure, DeviceReply::Failed(_)) => {
                let before = self.before.take();
                restore(state, before);
                self.stage = MaintenanceStage::Ended;
                DeviceAction::Fail(self.error)
            },
            _ => {
                self.stage = MaintenanceStage::Ended;
                DeviceAction::Fail(DeviceError::UnexpectedReply)
            },
        }
    }
}

/// Key maintenance whose keys could not be written down can be tried again: what is
/// written down is what it was, but for the count of failures, so a device that is
/// opened again has the keys that it had. Where a key has changed, the failure is
/// counted, whether or not the count itself can be written down.
pub proof fn law_rotation_can_be_retried(
    m: MaintenanceView,
    d: StateView,
    keys: KeysView,
    reason: Seq<char>,
)
    requires
        m.stage == MaintenanceStage::MakingKeys,
        device_keys::keys_for(keys, m.plan),
    ensures
        ({
            let changed = device_keys::keys_changed(d.store, m.plan, keys);
            let made = maintenance_step(m, d, ReplyView::Keys(keys));
            let refused = maintenance_step(made.0, made.1, ReplyView::Failed(reason));
            let counted = device_keys::failed(d, saving_failed(reason), m.now).records;
            &&& made.2 == ActionView::Save
            &&& refused.1.records == if changed { counted } else { d.records }
            &&& device::opened(refused.1.records).store == device::opened(d.records).store
            &&& !changed ==> refused.2 == ActionView::Fail(DeviceError::OutsideFailed)
            &&& changed ==> {
                let ended = maintenance_step(refused.0, refused.1, ReplyView::Saved);
                let lost = maintenance_step(refused.0, refused.1, ReplyView::Failed(reason));
                &&& refused.2 == ActionView::Save
                &&& ended.1 == refused.1
                &&& ended.2 == ActionView::Fail(m.error)
                &&& lost.1.records == d.records
                &&& lost.2 == ActionView::Fail(m.error)
            }
        }),
{
}

/// What key maintenance has come to after some replies.
pub open spec fn maintenance_run(d: StateView, now: u64, replies: Seq<ReplyView>) -> (
    MaintenanceView,
    StateView,
    ActionView,
)
    decreases replies.len(),
{
    if replies.len() == 0 {
        maintenance_started(d, now)
    } else {
        let last = maintenance_run(d, now, replies.drop_last());
        maintenance_step(last.0, last.1, replies.last())
    }
}

/// Whether one more failure is counted, with its cause.
pub open spec fn one_more_failure(before: StatusView, after: StatusView) -> bool {
    &&& after.consecutive_failures == before.consecutive_failures + 1
    &&& after.total_failures == before.total_failures + 1
    &&& after.last_error is Some
}

/// What is known of the count of failures while key maintenance goes on.
spec fn counted_so_far(before: StatusView, m: MaintenanceView, d: StateView) -> bool {
    let now = d.records.failures;
    &&& m.stage == MaintenanceStage::MakingKeys ==> now == before
    &&& m.stage == MaintenanceStage::Saving ==> now == (StatusView {
        consecutive_failures: 0,
        ..before
    }) && m.before is Some && m.before->0.failures == before
    &&& m.stage == MaintenanceStage::SavingFailure ==> one_more_failure(before, now)
}

proof fn lemma_counted_so_far(d: StateView, now: u64, replies: Seq<ReplyView>)
    requires
        d.records.failures.consecutive_failures < u32::MAX,
        d.records.failures.total_failures < u64::MAX,
    ensures
        ({
            let run = maintenance_run(d, now, replies);
            counted_so_far(d.records.failures, run.0, run.1)
        }),
    decreases replies.len(),
{
    if replies.len() > 0 {
        lemma_counted_so_far(d, now, replies.drop_last());
    }
}

/// Every failure of key maintenance is counted, and a success ends the run of them:
/// whatever comes of the steps, maintenance that is done has no failures in a row and
/// as many in all as before, and maintenance that has failed, and could write the
/// failure down, has one more of both and says why.
pub proof fn law_failures_are_counted(d: StateView, now: u64, replies: Seq<ReplyView>)
    requires
        d.records.failures.consecutive_failures < u32::MAX,
        d.records.failures.total_failures < u64::MAX,
        replies.len() > 0,
    ensures
        ({
            let run = maintenance_run(d, now, replies);
            let before = d.records.failures;
            let after = run.1.records.failures;
            &&& run.2 == ActionView::Done ==> after == (StatusView {
                consecutive_failures: 0,
                ..before
            })
            &&& run.2 is Fail && run.2 != ActionView::Fail(DeviceError::UnexpectedReply)
                && replies.last() == ReplyView::Saved ==> one_more_failure(before, after)
        }),
{
    lemma_counted_so_far(d, now, replies.drop_last());
}

// ---------------------------------------------------------------------------
// Encryption
// ---------------------------------------------------------------------------

/// How far an encryption is.
#[derive(Clone, Copy, Debug, PartialEq, Eq, Structural)]
pub enum EncryptionStage {
    Maintaining,
    Encrypting,
    Saving,
    Ended,
}

/// The encryption of one message for a peer.
#[derive(Debug)]
pub struct Encryption {
    pub stage: EncryptionStage,
    pub maintenance: Maintenance,
    pub peer: String,
    pub identity: Vec<u8>,
    pub plaintext: Vec<u8>,
    /// What is written down while something else is to be.
    pub before: Option<DeviceRecords>,
    pub envelope: Vec<u8>,
}

/// The contents of an [`Encryption`].
#[verifier::ext_equal]
pub struct EncryptionView {
    pub stage: EncryptionStage,
    pub maintenance: MaintenanceView,
    pub peer: Seq<char>,
    pub identity: Seq<u8>,
    pub plaintext: Seq<u8>,
    pub before: Option<RecordsView>,
    pub envelope: Seq<u8>,
}

impl View for Encryption {
    type V = EncryptionView;

    open spec fn view(&self) -> EncryptionView {
        EncryptionView {
            stage: self.stage,
            maintenance: self.maintenance@,
            peer: self.peer@,
            identity: self.identity@,
            plaintext: self.plaintext@,
            before: kept_view(self.before),
            envelope: self.envelope@,
        }
    }
}

/// An encryption that maintains keys asks for those that the device lacks.
pub open spec fn encryption_wf(e: EncryptionView, d: StateView) -> bool {
    e.stage == EncryptionStage::Maintaining ==> maintenance_wf(e.maintenance, d)
}

/// How an encryption begins: with key maintenance, on a device that has an address.
pub open spec fn encryption_started(
    d: StateView,
    bundle: BundleView,
    plaintext: Seq<u8>,
    now: u64,
) -> (EncryptionView, StateView, ActionView) {
    let (maintenance, after, action) = if d.name == UNCONFIGURED@ {
        (idle_maintenance(now), d, ActionView::Fail(DeviceError::NotInitialized))
    } else {
        maintenance_started(d, now)
    };
    (
        EncryptionView {
            stage: if d.name == UNCONFIGURED@ {
                EncryptionStage::Ended
            } else {
                EncryptionStage::Maintaining
            },
            maintenance,
            peer: device::bundle_peer(bundle),
            identity: bundle.identity_key,
            plaintext,
            before: None,
            envelope: Seq::empty(),
        },
        after,
        action,
    )
}

/// How an encryption goes on.
pub open spec fn encryption_step(e: EncryptionView, d: StateView, reply: ReplyView) -> (
    EncryptionView,
    StateView,
    ActionView,
) {
    let ended = EncryptionView { stage: EncryptionStage::Ended, ..e };
    match e.stage {
        EncryptionStage::Maintaining => {
            let (maintenance, d1, action) = maintenance_step(e.maintenance, d, reply);
            let next = EncryptionView { maintenance, ..e };
            match action {
                ActionView::Done => {
                    let d2 = device::loaded(d1, e.peer);
                    match device::encryption_allowed(d2, e.peer, e.identity) {
                        Ok(has_session) => (
                            EncryptionView { stage: EncryptionStage::Encrypting, ..next },
                            d2,
                            ActionView::Encrypt { has_session, plaintext: e.plaintext },
                        ),
                        Err(error) => (
                            EncryptionView { stage: EncryptionStage::Ended, ..next },
                            d2,
                            ActionView::Fail(error),
                        ),
                    }
                },
                ActionView::Fail(error) => (
                    EncryptionView { stage: EncryptionStage::Ended, ..next },
                    d1,
                    ActionView::Fail(error),
                ),
                _ => (next, d1, action),
            }
        },
        EncryptionStage::Encrypting => match reply {
            ReplyView::Encrypted { session, message_type, ciphertext } => {
                let d1 = device::with_session(d, e.peer, session);
                match signal::envelope_encoding(EnvelopeView { message_type, ciphertext }) {
                    Ok(frame) => (
                        EncryptionView {
                            stage: EncryptionStage::Saving,
                            before: Some(d.records),
                            envelope: frame,
                            ..e
                        },
                        device::persisted(d1, e.peer),
                        ActionView::Save,
                    ),
                    Err(error) => (ended, d1, ActionView::Fail(DeviceError::Frame(error))),
                }
            },
            ReplyView::Failed(_) => (ended, d, ActionView::Fail(DeviceError::OutsideFailed)),
            _ => (ended, d, ActionView::Fail(DeviceError::UnexpectedReply)),
        },
        EncryptionStage::Saving => match reply {
            ReplyView::Saved => (ended, d, ActionView::Done),
            ReplyView::Failed(_) => (
                EncryptionView { before: None, ..ended },
                restored(d, e.before),
                ActionView::Fail(DeviceError::OutsideFailed),
            ),
            _ => (ended, d, ActionView::Fail(DeviceError::UnexpectedReply)),
        },
        EncryptionStage::Ended => (ended, d, ActionView::Fail(DeviceError::UnexpectedReply)),
    }
}

impl SqliteSignalState {
    /// Begins to encrypt a plaintext for the owner of a bundle.
    pub fn encrypt_for(&mut self, bundle: &SignalPreKeyBundle, plaintext: &[u8], now: u64) -> (started:
        (Encryption, DeviceAction))
        requires
            old(self).wf(),
        ensures
            final(self).wf(),
            started.0.wf(),
            encryption_wf(started.0@, final(self)@),
            (started.0@, final(self)@, started.1@) == encryption_started(
                old(self)@,
                bundle@,
                plaintext@,
                now,
            ),
    {
        let nameless = same_text(self.local_name.as_str(), UNCONFIGURED);
        let (maintenance, action) = if nameless {
            (idle(now), DeviceAction::Fail(DeviceError::NotInitialized))
        } else {
            self.maintain_key_inventory(now)
        };
        let encryption = Encryption {
            stage: if nameless {
                EncryptionStage::Ended
            } else {
                EncryptionStage::Maintaining
            },
            maintenance,
            peer: bundle.address(),
            identity: copy_bytes(bundle.identity_key.as_slice()),
            plaintext: copy_bytes(plaintext),
            before: None,
            envelope: Vec::new(),
        };
        assert(encryption@ =~= encryption_started(old(self)@, bundle@, plaintext@, now).0);
        (encryption, action)
    }

    /// Begins to encrypt a message with a fresh ID for the owner of a bundle.
    pub fn encrypt_message_for(
        &mut self,
        bundle: &SignalPreKeyBundle,
        plaintext: &[u8],
        now: u64,
    ) -> (result: Result<(MessageId, Encryption, DeviceAction), SignalError>)
        requires
            old(self).wf(),
        ensures
            final(self).wf(),
            match result {
                Ok((id, encryption, action)) => {
                    let message = SafeChatMessageView { id: id@, plaintext: plaintext@ };
                    &&& encryption.wf()
                    &&& encryption_wf(encryption@, final(self)@)
                    &&& signal::message_encoding(message, primitives::zlib_stream(plaintext@))
                        == Ok::<Seq<u8>, SignalError>(encryption@.plaintext)
                    &&& signal::message_decoding(encryption@.plaintext) == Ok::<
                        SafeChatMessageView,
                        SignalError,
                    >(message)
                    &&& (encryption@, final(self)@, action@) == encryption_started(
                        old(self)@,
                        bundle@,
                        encryption@.plaintext,
                        now,
                    )
                },
                Err(error) => error == SignalError::MessageTooLong && final(self)@ == old(self)@,
            },
            result is Ok <==> plaintext@.len() <= signal::MAX_MESSAGE_LEN,
    {
        let message = SafeChatMessage::new(plaintext);
        assert(message@ =~= (SafeChatMessageView {
            id: message.id@,
            plaintext: plaintext@,
        }));
        let frame = message.encode()?;
        let (encryption, action) = self.encrypt_for(bundle, frame.as_slice(), now);
        Ok((message.id, encryption, action))
    }
}

impl Encryption {
    /// The records that are kept are in order.
    pub open spec fn wf(self) -> bool {
        self.maintenance.wf() && kept_wf(self.before)
    }

    /// Goes on once the keys have been maintained.
    fn check(&mut self, state: &mut SqliteSignalState) -> (action: DeviceAction)
        requires
            old(self).wf(),
            old(state).wf(),
        ensures
            final(self).wf(),
            final(state).wf(),
            final(state)@ == device::loaded(old(state)@, old(self)@.peer),
            match device::encryption_allowed(
                final(state)@,
                old(self)@.peer,
                old(self)@.identity,
            ) {
                Ok(has_session) => {
                    &&& final(self)@ == (EncryptionView {
                        stage: EncryptionStage::Encrypting,
                        ..old(self)@
                    })
                    &&& action@ == (ActionView::Encrypt {
                        has_session,
                        plaintext: old(self)@.plaintext,
                    })
                },
                Err(error) => {
                    &&& final(self)@ == (EncryptionView {
                        stage: EncryptionStage::Ended,
                        ..old(self)@
                    })
                    &&& action@ == ActionView::Fail(error)
                },
            },
    {
        match state.check_encrypt(self.peer.as_str(), self.identity.as_slice()) {
            Ok(has_session) => {
                self.stage = EncryptionStage::Encrypting;
                DeviceAction::Encrypt {
                    has_session,
                    plaintext: copy_bytes(self.plaintext.as_slice()),
                }
            },
            Err(error) => {
                self.stage = EncryptionStage::Ended;
                DeviceAction::Fail(error)
            },
        }
    }

    /// Takes a reply, and says what is to be done next.
    pub fn step(&mut self, state: &mut SqliteSignalState, reply: DeviceReply) -> (action:
        DeviceAction)
        requires
            old(self).wf(),
            old(state).wf(),
            encryption_wf(old(self)@, old(state)@),
        ensures
            final(self).wf(),
            final(state).wf(),
            encryption_wf(final(self)@, final(state)@),
            (final(self)@, final(state)@, action@) == encryption_step(
                old(self)@,
                old(state)@,
                reply@,
            ),
    {
        match self.stage {
            EncryptionStage::Maintaining => {
                let action = self.maintenance.step(state, reply);
                match action {
                    DeviceAction::Done => self.check(state),
                    DeviceAction::Fail(error) => {
                        self.stage = EncryptionStage::Ended;
                        DeviceAction::Fail(error)
                    },
                    other => other,
                }
            },
            EncryptionStage::Encrypting => match reply {
                DeviceReply::Encrypted { session, message_type, ciphertext } => {
                    let before = state.records.copy();
                    state.take_session(self.peer.as_str(), session);
                    let framed = match SignalEnvelope::from_ciphertext(message_type, ciphertext) {
                        Ok(envelope) => envelope.encode(),
                        Err(error) => Err(error),
                    };
                    match framed {
                        Ok(envelope) => {
                            state.persist_peer(self.peer.as_str());
                            self.before = Some(before);
                            self.envelope = envelope;
                            self.stage = EncryptionStage::Saving;
                            DeviceAction::Save
                        },
                        Err(error) => {
                            self.stage = EncryptionStage::Ended;
                            DeviceAction::Fail(DeviceError::Frame(error))
                        },
                    }
                },
                DeviceReply::Failed(_) => {
                    self.stage = EncryptionStage::Ended;
                    DeviceAction::Fail(DeviceError::OutsideFailed)
                },
                _ => {
                    self.stage = EncryptionStage::Ended;
                    DeviceAction::Fail(DeviceError::UnexpectedReply)
                },
            },
            EncryptionStage::Saving => {
                self.stage = EncryptionStage::Ended;
                match reply {
                    DeviceReply::Saved => DeviceAction::Done,
                    DeviceReply::Failed(_) => {
                        let before = self.before.take();
                        restore(state, before);
                        DeviceAction::Fail(DeviceError::OutsideFailed)
                    },
                    _ => DeviceAction::Fail(DeviceError::UnexpectedReply),
                }
            },
            EncryptionStage::Ended => DeviceAction::Fail(DeviceError::UnexpectedReply),
        }
    }
}

/// A message is encrypted only for a peer whose identity is trusted and not revoked.
/// What is encrypted is the plaintext that was to be encrypted.
pub proof fn law_encryption_needs_trust(e: EncryptionView, d: StateView, reply: ReplyView)
    requires
        encryption_step(e, d, reply).2 is Encrypt,
        e.stage == EncryptionStage::Maintaining,
    ensures
        ({
            let after = encryption_step(e, d, reply).1;
            &&& device::trusted_by(after, e.peer) == Some(e.identity)
            &&& !device::revoked_by(after, e.peer)
            &&& encryption_step(e, d, reply).2->Encrypt_plaintext == e.plaintext
        }),
{
    let (maintenance, d1, action) = maintenance_step(e.maintenance, d, reply);
    assert(!(action is Encrypt));
}

/// A ratchet update that could not be written down can be tried again: what is
/// written down is what it was, and no ciphertext is handed out.
pub proof fn law_encryption_can_be_retried(
    e: EncryptionView,
    d: StateView,
    session: Seq<u8>,
    message_type: u8,
    ciphertext: Seq<u8>,
    reason: Seq<char>,
)
    requires
        e.stage == EncryptionStage::Encrypting,
        signal::envelope_encoding(EnvelopeView { message_type, ciphertext }) is Ok,
    ensures
        ({
            let made = encryption_step(
                e,
                d,
                ReplyView::Encrypted { session, message_type, ciphertext },
            );
            let refused = encryption_step(made.0, made.1, ReplyView::Failed(reason));
            &&& made.2 == ActionView::Save
            &&& refused.1.records == d.records
            &&& refused.2 == ActionView::Fail(DeviceError::OutsideFailed)
        }),
{
}

/// A ratchet update that was written down survives a restart: the session is the one
/// that encrypting left.
pub proof fn law_encryption_survives_reopening(
    e: EncryptionView,
    d: StateView,
    session: Seq<u8>,
    message_type: u8,
    ciphertext: Seq<u8>,
)
    requires
        e.stage == EncryptionStage::Encrypting,
        signal::envelope_encoding(EnvelopeView { message_type, ciphertext }) is Ok,
    ensures
        ({
            let made = encryption_step(
                e,
                d,
                ReplyView::Encrypted { session, message_type, ciphertext },
            );
            let saved = encryption_step(made.0, made.1, ReplyView::Saved);
            &&& saved.2 == ActionView::Done
            &&& Ok::<Seq<u8>, SignalError>(saved.0.envelope) == signal::envelope_encoding(
                EnvelopeView { message_type, ciphertext },
            )
            &&& device::entry(
                device::loaded(device::opened(saved.1.records), e.peer).store.sessions,
                e.peer,
            ) == Some(session)
        }),
{
}

// ---------------------------------------------------------------------------
// Decryption
// ---------------------------------------------------------------------------

/// How far a decryption is.
#[derive(Clone, Copy, Debug, PartialEq, Eq, Structural)]
pub enum DecryptionStage {
    Decrypting,
    Maintaining,
    Saving,
    Ended,
}

/// The decryption of one message from a sender.
#[derive(Debug)]
pub struct Decryption {
    pub stage: DecryptionStage,
    pub maintenance: Maintenance,
    pub sender: String,
    pub now: u64,
    /// What is written down while something else is to be.
    pub before: Option<DeviceRecords>,
    pub plaintext: Vec<u8>,
}

/// The contents of a [`Decryption`].
#[verifier::ext_equal]
pub struct DecryptionView {
    pub stage: DecryptionStage,
    pub maintenance: MaintenanceView,
    pub sender: Seq<char>,
    pub now: u64,
    pub before: Option<RecordsView>,
    pub plaintext: Seq<u8>,
}

impl View for Decryption {
    type V = DecryptionView;

    open spec fn view(&self) -> DecryptionView {
        DecryptionView {
            stage: self.stage,
            maintenance: self.maintenance@,
            sender: self.sender@,
            now: self.now,
            before: kept_view(self.before),
            plaintext: self.plaintext@,
        }
    }
}

/// A decryption that maintains keys asks for those that the device lacks.
pub open spec fn decryption_wf(e: DecryptionView, d: StateView) -> bool {
    e.stage == DecryptionStage::Maintaining ==> maintenance_wf(e.maintenance, d)
}

/// How a decryption begins: a sender that is trusted and not revoked is let in.
pub open spec fn decryption_started(
    d: StateView,
    sender: Seq<char>,
    encoded: Seq<u8>,
    now: u64,
) -> (DecryptionView, StateView, ActionView) {
    let after = device::loaded(d, sender);
    let allowed = device::decryption_allowed(after, sender, encoded);
    (
        DecryptionView {
            stage: if allowed is Ok {
                DecryptionStage::Decrypting
            } else {
                DecryptionStage::Ended
            },
            maintenance: idle_maintenance(now),
            sender,
            now,
            before: None,
            plaintext: Seq::empty(),
        },
        after,
        match allowed {
            Ok(envelope) => ActionView::Decrypt { envelope },
            Err(error) => ActionView::Fail(error),
        },
    )
}

/// A device after a message was decrypted: its session with the sender has moved on,
/// and it has the keys that are left.
pub open spec fn after_decrypting(
    d: StateView,
    sender: Seq<char>,
    session: Seq<u8>,
    prekeys: Map<u32, Seq<u8>>,
    kyber_prekeys: Map<u32, Seq<u8>>,
) -> StateView {
    let moved = device::with_session(d, sender, session);
    StateView { store: RuntimeView { prekeys, kyber_prekeys, ..moved.store }, ..moved }
}

/// How a decryption goes on.
pub open spec fn decryption_step(e: DecryptionView, d: StateView, reply: ReplyView) -> (
    DecryptionView,
    StateView,
    ActionView,
) {
    let ended = DecryptionView { stage: DecryptionStage::Ended, ..e };
    match e.stage {
        DecryptionStage::Decrypting => match reply {
            ReplyView::Decrypted { plaintext, session, prekeys, kyber_prekeys } => {
                let d1 = after_decrypting(d, e.sender, session, prekeys, kyber_prekeys);
                let (maintenance, d2, action) = maintenance_started(d1, e.now);
                (
                    DecryptionView {
                        stage: DecryptionStage::Maintaining,
                        maintenance,
                        plaintext,
                        ..e
                    },
                    d2,
                    action,
                )
            },
            ReplyView::Failed(_) => (ended, d, ActionView::Fail(DeviceError::OutsideFailed)),
            _ => (ended, d, ActionView::Fail(DeviceError::UnexpectedReply)),
        },
        DecryptionStage::Maintaining => {
            let (maintenance, d1, action) = maintenance_step(e.maintenance, d, reply);
            let next = DecryptionView { maintenance, ..e };
            match action {
                ActionView::Done => (
                    DecryptionView {
                        stage: DecryptionStage::Saving,
                        before: Some(d1.records),
                        ..next
                    },
                    device::persisted(d1, e.sender),
                    ActionView::Save,
                ),
                ActionView::Fail(error) => (
                    DecryptionView { stage: DecryptionStage::Ended, ..next },
                    d1,
                    ActionView::Fail(error),
                ),
                _ => (next, d1, action),
            }
        },
        DecryptionStage::Saving => match reply {
            ReplyView::Saved => (ended, d, ActionView::Done),
            ReplyView::Failed(_) => (
                DecryptionView { before: None, ..ended },
                restored(d, e.before),
                ActionView::Fail(DeviceError::OutsideFailed),
            ),
            _ => (ended, d, ActionView::Fail(DeviceError::UnexpectedReply)),
        },
        DecryptionStage::Ended => (ended, d, ActionView::Fail(DeviceError::UnexpectedReply)),
    }
}

fn table_of(rows: &Vec<KeyRow>) -> (table: KeyTable)
    ensures
        table.wf(),
        table@ == rows_held(rows@),
{
    let mut table = KeyTable::new();
    table.put_all(rows.as_slice());
    table
}

impl SqliteSignalState {
    /// Begins to decrypt a message of a sender.
    pub fn decrypt_from(&mut self, sender: &str, encoded: &[u8], now: u64) -> (started: (
        Decryption,
        DeviceAction,
    ))
        requires
            old(self).wf(),
        ensures
            final(self).wf(),
            started.0.wf(),
            decryption_wf(started.0@, final(self)@),
            (started.0@, final(self)@, started.1@) == decryption_started(
                old(self)@,
                sender@,
                encoded@,
                now,
            ),
    {
        let allowed = self.check_decrypt(sender, encoded);
        let decryption = Decryption {
            stage: if allowed.is_ok() {
                DecryptionStage::Decrypting
            } else {
                DecryptionStage::Ended
            },
            maintenance: idle(now),
            sender: sender.to_owned(),
            now,
            before: None,
            plaintext: Vec::new(),
        };
        assert(decryption@ =~= decryption_started(old(self)@, sender@, encoded@, now).0);
        match allowed {
            Ok(envelope) => (decryption, DeviceAction::Decrypt { envelope }),
            Err(error) => (decryption, DeviceAction::Fail(error)),
        }
    }
}

impl Decryption {
    /// The records that are kept are in order.
    pub open spec fn wf(self) -> bool {
        self.maintenance.wf() && kept_wf(self.before)
    }

    /// Takes a reply, and says what is to be done next.
    pub fn step(&mut self, state: &mut SqliteSignalState, reply: DeviceReply) -> (action:
        DeviceAction)
        requires
            old(self).wf(),
            old(state).wf(),
            decryption_wf(old(self)@, old(state)@),
        ensures
            final(self).wf(),
            final(state).wf(),
            decryption_wf(final(self)@, final(state)@),
            (final(self)@, final(state)@, action@) == decryption_step(
                old(self)@,
                old(state)@,
                reply@,
            ),
    {
        match self.stage {
            DecryptionStage::Decrypting => match reply {
                DeviceReply::Decrypted { plaintext, session, prekeys, kyber_prekeys } => {
                    state.take_session(self.sender.as_str(), session);
                    state.store.prekeys = table_of(&prekeys);
                    state.store.kyber_prekeys = table_of(&kyber_prekeys);
                    let (maintenance, action) = state.maintain_key_inventory(self.now);
                    self.maintenance = maintenance;
                    self.plaintext = plaintext;
                    self.stage = DecryptionStage::Maintaining;
                    action
                },
                DeviceReply::Failed(_) => {
                    self.stage = DecryptionStage::Ended;
                    DeviceAction::Fail(DeviceError::OutsideFailed)
                },
                _ => {
                    self.stage = DecryptionStage::Ended;
                    DeviceAction::Fail(DeviceError::UnexpectedReply)
                },
            },
            DecryptionStage::Maintaining => {
                let action = self.maintenance.step(state, reply);
                match action {
                    DeviceAction::Done => {
                        self.before = Some(state.records.copy());
                        state.persist_peer(self.sender.as_str());
                        self.stage = DecryptionStage::Saving;
                        DeviceAction::Save
                    },
                    DeviceAction::Fail(error) => {
                        self.stage = DecryptionStage::Ended;
                        DeviceAction::Fail(error)
                    },
                    other => other,
                }
            },
            DecryptionStage::Saving => {
                self.stage = DecryptionStage::Ended;
                match reply {
                    DeviceReply::Saved => DeviceAction::Done,
                    DeviceReply::Failed(_) => {
                        let before = self.before.take();
                        restore(state, before);
                        DeviceAction::Fail(DeviceError::OutsideFailed)
                    },
                    _ => DeviceAction::Fail(DeviceError::UnexpectedReply),
                }
            },
            DecryptionStage::Ended => DeviceAction::Fail(DeviceError::UnexpectedReply),
        }
    }
}

impl Decryption {
    /// The message that was decrypted.
    pub fn message(&self) -> (result: Result<SafeChatMessage, SignalError>)
        ensures
            match signal::message_decoding(self@.plaintext) {
                Ok(value) => result matches Ok(message) && message@ == value,
                Err(error) => result == Err::<SafeChatMessage, SignalError>(error),
            },
    {
        SafeChatMessage::decode(self.plaintext.as_slice())
    }
}

/// A message is decrypted only from a sender that is trusted and not revoked.
pub proof fn law_decryption_needs_trust(
    d: StateView,
    sender: Seq<char>,
    encoded: Seq<u8>,
    now: u64,
)
    requires
        decryption_started(d, sender, encoded, now).2 is Decrypt,
    ensures
        device::trusted_by(device::loaded(d, sender), sender) is Some,
        !device::revoked_by(device::loaded(d, sender), sender),
{
}

/// The use of a prekey that could not be written down can be tried again: what is
/// written down is what it was before the message was decrypted, but for the count
/// of failures, so the prekey is still there once the device is opened again. The same
/// holds where the session could not be written down, and no key was made before.
pub proof fn law_decryption_can_be_retried(
    e: DecryptionView,
    d: StateView,
    message: ReplyView,
    keys: KeysView,
    reason: Seq<char>,
)
    requires
        e.stage == DecryptionStage::Decrypting,
        message is Decrypted,
        decryption_step(e, d, message).0.maintenance.stage == MaintenanceStage::MakingKeys,
        device_keys::keys_for(keys, decryption_step(e, d, message).0.maintenance.plan),
    ensures
        ({
            let decrypted = decryption_step(e, d, message);
            let made = decryption_step(decrypted.0, decrypted.1, ReplyView::Keys(keys));
            let refused = decryption_step(made.0, made.1, ReplyView::Failed(reason));
            &&& decrypted.1.records == d.records
            &&& refused.1.records == (RecordsView {
                failures: refused.1.records.failures,
                ..d.records
            })
            &&& !(refused.2 is Done)
            &&& device::opened(refused.1.records).store == device::opened(d.records).store
        }),
        ({
            let decrypted = decryption_step(e, d, message);
            let made = decryption_step(decrypted.0, decrypted.1, ReplyView::Keys(keys));
            let kept = decryption_step(made.0, made.1, ReplyView::Saved);
            let refused = decryption_step(kept.0, kept.1, ReplyView::Failed(reason));
            let plan = decrypted.0.maintenance.plan;
            &&& kept.2 == ActionView::Save
            &&& refused.1.records == made.1.records
            &&& refused.2 == ActionView::Fail(DeviceError::OutsideFailed)
            &&& !device_keys::keys_changed(decrypted.1.store, plan, keys) ==> {
                &&& refused.1.records == (RecordsView {
                    failures: refused.1.records.failures,
                    ..d.records
                })
                &&& device::opened(refused.1.records).store == device::opened(d.records).store
            }
        }),
{
}

/// A message that was decrypted and written down leaves the sender's session as
/// decrypting left it, across a restart too.
pub proof fn law_decryption_survives_reopening(e: DecryptionView, d: StateView, session: Seq<u8>)
    requires
        e.stage == DecryptionStage::Maintaining,
        device::entry(d.store.sessions, e.sender) == Some(session),
        maintenance_step(e.maintenance, d, ReplyView::Saved).2 == ActionView::Done,
    ensures
        ({
            let written = decryption_step(e, d, ReplyView::Saved);
            let saved = decryption_step(written.0, written.1, ReplyView::Saved);
            &&& saved.2 == ActionView::Done
            &&& saved.0.plaintext == e.plaintext
            &&& device::entry(
                device::loaded(device::opened(saved.1.records), e.sender).store.sessions,
                e.sender,
            ) == Some(session)
        }),
{
}

// ---------------------------------------------------------------------------
// Replacement of the identity
// ---------------------------------------------------------------------------

/// How far the replacement of an identity is.
#[derive(Clone, Copy, Debug, PartialEq, Eq, Structural)]
pub enum ReplacementStage {
    Generating,
    SavingIdentity,
    Maintaining,
    Exporting,
    Signing,
    SavingRecord,
    Ended,
}

/// The replacement of the identity of a device.
#[derive(Debug)]
pub struct Replacement {
    pub stage: ReplacementStage,
    pub maintenance: Maintenance,
    pub old_identity: Vec<u8>,
    pub now: u64,
    /// What is written down while something else is to be.
    pub before: Option<DeviceRecords>,
    /// The recovery record that is to be sent to peers.
    pub record: Option<IdentityRecoveryRecord>,
}

/// The contents of a [`Replacement`].
#[verifier::ext_equal]
pub struct ReplacementView {
    pub stage: ReplacementStage,
    pub maintenance: MaintenanceView,
    pub old_identity: Seq<u8>,
    pub now: u64,
    pub before: Option<RecordsView>,
    pub record: Option<RecoveryView>,
}

/// The contents of a recovery record that may be missing.
pub open spec fn record_view(record: Option<IdentityRecoveryRecord>) -> Option<RecoveryView> {
    match record {
        Some(record) => Some(record@),
        None => None,
    }
}

impl View for Replacement {
    type V = ReplacementView;

    open spec fn view(&self) -> ReplacementView {
        ReplacementView {
            stage: self.stage,
            maintenance: self.maintenance@,
            old_identity: self.old_identity@,
            now: self.now,
            before: kept_view(self.before),
            record: record_view(self.record),
        }
    }
}

/// A replacement that maintains keys asks for those that the device lacks, and one
/// that has something signed has a record.
pub open spec fn replacement_wf(e: ReplacementView, d: StateView) -> bool {
    &&& e.stage == ReplacementStage::Maintaining ==> maintenance_wf(e.maintenance, d)
    &&& e.stage == ReplacementStage::Signing ==> e.record is Some
}

/// How the replacement of an identity begins.
pub open spec fn replacement_started(old_identity: Seq<u8>, now: u64) -> (
    ReplacementView,
    ActionView,
) {
    (
        ReplacementView {
            stage: ReplacementStage::Generating,
            maintenance: idle_maintenance(now),
            old_identity,
            now,
            before: None,
            record: None,
        },
        ActionView::GenerateIdentity,
    )
}

/// The recovery record of a new bundle, before it is signed.
pub open spec fn unsigned_record(
    old_identity: Seq<u8>,
    new_bundle: BundleView,
    now: u64,
) -> RecoveryView {
    RecoveryView {
        old_identity,
        new_bundle,
        effective_at: now,
        confirmation: true,
        signature: Seq::empty(),
    }
}

/// How the replacement of an identity goes on. The old identity is in use until the
/// new one is written down.
pub open spec fn replacement_step(e: ReplacementView, d: StateView, reply: ReplyView) -> (
    ReplacementView,
    StateView,
    ActionView,
) {
    let ended = ReplacementView { stage: ReplacementStage::Ended, ..e };
    let unexpected = (ended, d, ActionView::Fail(DeviceError::UnexpectedReply));
    let refused = (ended, d, ActionView::Fail(DeviceError::OutsideFailed));
    match e.stage {
        ReplacementStage::Generating => match reply {
            ReplyView::Identity { pair, random } => (
                ReplacementView {
                    stage: ReplacementStage::SavingIdentity,
                    before: Some(d.records),
                    ..e
                },
                StateView {
                    records: device::with_identity(d, pair, random % 0x4000).records,
                    ..d
                },
                ActionView::Save,
            ),
            ReplyView::Failed(_) => refused,
            _ => unexpected,
        },
        ReplacementStage::SavingIdentity => match reply {
            ReplyView::Saved => {
                let d1 = StateView { store: device::fresh_store(d.records), ..d };
                let (maintenance, d2, action) = maintenance_started(d1, e.now);
                (
                    ReplacementView { stage: ReplacementStage::Maintaining, maintenance, ..e },
                    d2,
                    action,
                )
            },
            ReplyView::Failed(_) => (
                ReplacementView { before: None, ..ended },
                restored(d, e.before),
                ActionView::Fail(DeviceError::OutsideFailed),
            ),
            _ => unexpected,
        },
        ReplacementStage::Maintaining => {
            let (maintenance, d1, action) = maintenance_step(e.maintenance, d, reply);
            let next = ReplacementView { maintenance, ..e };
            match action {
                ActionView::Done => (
                    ReplacementView { stage: ReplacementStage::Exporting, ..next },
                    d1,
                    ActionView::ExportBundle,
                ),
                ActionView::Fail(error) => (
                    ReplacementView { stage: ReplacementStage::Ended, ..next },
                    d1,
                    ActionView::Fail(error),
                ),
                _ => (next, d1, action),
            }
        },
        ReplacementStage::Exporting => match reply {
            ReplyView::Bundle(new_bundle) => {
                let record = unsigned_record(e.old_identity, new_bundle, e.now);
                if bundle::recovery_fits(record) {
                    (
                        ReplacementView {
                            stage: ReplacementStage::Signing,
                            record: Some(record),
                            ..e
                        },
                        d,
                        ActionView::Sign { payload: bundle::recovery_payload(record) },
                    )
                } else {
                    (
                        ended,
                        d,
                        ActionView::Fail(DeviceError::Frame(SignalError::FieldTooLarge)),
                    )
                }
            },
            ReplyView::Failed(_) => refused,
            _ => unexpected,
        },
        ReplacementStage::Signing => match reply {
            ReplyView::Signature(signature) => {
                let record = RecoveryView { signature, ..e.record->0 };
                match bundle::recovery_encoding(record) {
                    Ok(_) => (
                        ReplacementView {
                            stage: ReplacementStage::SavingRecord,
                            before: Some(d.records),
                            record: Some(record),
                            ..e
                        },
                        StateView {
                            records: RecordsView {
                                recoveries: d.records.recoveries.push(device::recovery_row(record)),
                                ..d.records
                            },
                            ..d
                        },
                        ActionView::Save,
                    ),
                    Err(error) => (
                        ReplacementView { record: Some(record), ..ended },
                        d,
                        ActionView::Fail(DeviceError::Frame(error)),
                    ),
                }
            },
            ReplyView::Failed(_) => refused,
            _ => unexpected,
        },
        ReplacementStage::SavingRecord => match reply {
            ReplyView::Saved => (ended, d, ActionView::Done),
            ReplyView::Failed(_) => (
                ReplacementView { before: None, ..ended },
                restored(d, e.before),
                ActionView::Fail(DeviceError::OutsideFailed),
            ),
            _ => unexpected,
        },
        ReplacementStage::Ended => unexpected,
    }
}

impl SqliteSignalState {
    /// Begins to replace the identity of a device. `old_identity` is its public key.
    pub fn replace_identity_with_recovery(&self, old_identity: Vec<u8>, now: u64) -> (started: (
        Replacement,
        DeviceAction,
    ))
        ensures
            started.0.wf(),
            replacement_wf(started.0@, self@),
            (started.0@, started.1@) == replacement_started(old_identity@, now),
    {
        let replacement = Replacement {
            stage: ReplacementStage::Generating,
            maintenance: idle(now),
            old_identity,
            now,
            before: None,
            record: None,
        };
        assert(replacement@ =~= replacement_started(old_identity@, now).0);
        (replacement, DeviceAction::GenerateIdentity)
    }
}

impl Replacement {
    /// The records that are kept are in order.
    pub open spec fn wf(self) -> bool {
        self.maintenance.wf() && kept_wf(self.before)
    }

    fn end(&mut self, error: DeviceError) -> (action: DeviceAction)
        requires
            old(self).wf(),
        ensures
            final(self).wf(),
            final(self)@ == (ReplacementView { stage: ReplacementStage::Ended, ..old(self)@ }),
            action@ == ActionView::Fail(error),
    {
        self.stage = ReplacementStage::Ended;
        DeviceAction::Fail(error)
    }

    /// Takes the signature of the recovery record.
    fn finish(&mut self, state: &mut SqliteSignalState, signature: Vec<u8>) -> (action:
        DeviceAction)
        requires
            old(self).wf(),
            old(state).wf(),
            old(self).stage == ReplacementStage::Signing,
            replacement_wf(old(self)@, old(state)@),
        ensures
            final(self).wf(),
            final(state).wf(),
            replacement_wf(final(self)@, final(state)@),
            (final(self)@, final(state)@, action@) == replacement_step(
                old(self)@,
                old(state)@,
                ReplyView::Signature(signature@),
            ),
    {
        let mut record = match self.record.take() {
            Some(record) => record,
            None => return self.end(DeviceError::UnexpectedReply),
        };
        record.signature = signature;
        let before = state.records.copy();
        match state.note_recovery(&record) {
            Ok(()) => {
                self.before = Some(before);
                self.record = Some(record);
                self.stage = ReplacementStage::SavingRecord;
                DeviceAction::Save
            },
            Err(error) => {
                self.record = Some(record);
                self.end(error)
            },
        }
    }

    /// Takes a reply, and says what is to be done next.
    pub fn step(&mut self, state: &mut SqliteSignalState, reply: DeviceReply) -> (action:
        DeviceAction)
        requires
            old(self).wf(),
            old(state).wf(),
            replacement_wf(old(self)@, old(state)@),
        ensures
            final(self).wf(),
            final(state).wf(),
            replacement_wf(final(self)@, final(state)@),
            (final(self)@, final(state)@, action@) == replacement_step(
                old(self)@,
                old(state)@,
                reply@,
            ),
    {
        match (self.stage, reply) {
            (ReplacementStage::Generating, DeviceReply::Identity { pair, random }) => {
                self.before = Some(state.records.copy());
                state.begin_identity(pair, registration_id(random));
                self.stage = ReplacementStage::SavingIdentity;
                DeviceAction::Save
            },
            (ReplacementStage::SavingIdentity, DeviceReply::Saved) => {
                state.reset_runtime_store();
                let (maintenance, action) = state.maintain_key_inventory(self.now);
                self.maintenance = maintenance;
                self.stage = ReplacementStage::Maintaining;
                action
            },
            (ReplacementStage::Maintaining, reply) => {
                let action = self.maintenance.step(state, reply);
                match action {
                    DeviceAction::Done => {
                        self.stage = ReplacementStage::Exporting;
                        DeviceAction::ExportBundle
                    },
                    DeviceAction::Fail(error) => self.end(error),
                    other => other,
                }
            },
            (ReplacementStage::Exporting, DeviceReply::Bundle(new_bundle)) => {
                let record = IdentityRecoveryRecord {
                    old_identity: copy_bytes(self.old_identity.as_slice()),
                    new_bundle,
                    effective_at: self.now,
                    confirmation: true,
                    signature: Vec::new(),
                };
                assert(record@ =~= unsigned_record(self@.old_identity, new_bundle@, self.now));
                match record.payload() {
                    Ok(payload) => {
                        self.record = Some(record);
                        self.stage = ReplacementStage::Signing;
                        DeviceAction::Sign { payload }
                    },
                    Err(error) => self.end(DeviceError::Frame(error)),
                }
            },
            (ReplacementStage::Signing, DeviceReply::Signature(signature)) => {
                self.finish(state, signature)
            },
            (ReplacementStage::SavingRecord, DeviceReply::Saved) => {
                self.stage = ReplacementStage::Ended;
                DeviceAction::Done
            },
            (
                ReplacementStage::SavingIdentity | ReplacementStage::SavingRecord,
                DeviceReply::Failed(_),
            ) => {
                let before = self.before.take();
                restore(state, before);
                self.end(DeviceError::OutsideFailed)
            },
            (
                ReplacementStage::Generating | ReplacementStage::Exporting
                | ReplacementStage::Signing,
                DeviceReply::Failed(_),
            ) => self.end(DeviceError::OutsideFailed),
            _ => self.end(DeviceError::UnexpectedReply),
        }
    }
}

/// A new identity that could not be written down leaves the device as it was: the
/// old identity, its sessions and its keys are all still there.
pub proof fn law_replacement_can_be_retried(
    e: ReplacementView,
    d: StateView,
    pair: Seq<u8>,
    random: u32,
    reason: Seq<char>,
)
    requires
        e.stage == ReplacementStage::Generating,
    ensures
        ({
            let made = replacement_step(e, d, ReplyView::Identity { pair, random });
            let refused = replacement_step(made.0, made.1, ReplyView::Failed(reason));
            &&& made.2 == ActionView::Save
            &&& refused.1 == d
            &&& refused.2 == ActionView::Fail(DeviceError::OutsideFailed)
        }),
{
}

/// What the old identity signs is what peers check: the payload of the record that
/// is handed out, whatever its signature.
pub proof fn law_recovery_is_signed(
    e: ReplacementView,
    d: StateView,
    new_bundle: BundleView,
    signature: Seq<u8>,
)
    requires
        e.stage == ReplacementStage::Exporting,
        replacement_step(e, d, ReplyView::Bundle(new_bundle)).2 is Sign,
    ensures
        ({
            let asked = replacement_step(e, d, ReplyView::Bundle(new_bundle));
            let signed = replacement_step(asked.0, asked.1, ReplyView::Signature(signature));
            &&& signed.0.record matches Some(record)
            &&& record.signature == signature
            &&& record.old_identity == e.old_identity
            &&& record.new_bundle == new_bundle
            &&& record.confirmation
            &&& asked.2 == (ActionView::Sign { payload: bundle::recovery_payload(record) })
        }),
{
}

// ---------------------------------------------------------------------------
// What an operation leaves to the other peers
// ---------------------------------------------------------------------------

/// Whether what is written of every peer but two is the same, and so are the identity,
/// the address, the revocations and the recoveries.
pub open spec fn others_alike(
    left: RecordsView,
    right: RecordsView,
    peer: Seq<char>,
    local: Seq<char>,
) -> bool {
    &&& left.device == right.device
    &&& left.identity_pair == right.identity_pair
    &&& left.registration_id == right.registration_id
    &&& left.revocations == right.revocations
    &&& left.recoveries == right.recoveries
    &&& forall|other: Seq<char>|
        other != peer && other != local ==> #[trigger] device::agree_on(
            left.sessions,
            right.sessions,
            other,
        )
    &&& forall|other: Seq<char>|
        other != peer && other != local ==> #[trigger] device::agree_on(
            left.trusted,
            right.trusted,
            other,
        )
}

spec fn kept_alike(
    kept: Option<RecordsView>,
    right: RecordsView,
    peer: Seq<char>,
    local: Seq<char>,
) -> bool {
    kept matches Some(left) ==> others_alike(left, right, peer, local)
}

spec fn device_alike(d: StateView, start: StateView, peer: Seq<char>) -> bool {
    &&& d.name == start.name
    &&& d.device_id == start.device_id
    &&& others_alike(
        d.records,
        start.records,
        peer,
        signal::address_text(start.name, start.device_id),
    )
}

proof fn lemma_maintenance_alike(
    m: MaintenanceView,
    d: StateView,
    reply: ReplyView,
    start: StateView,
    peer: Seq<char>,
)
    requires
        device_alike(d, start, peer),
        kept_alike(
            m.before,
            start.records,
            peer,
            signal::address_text(start.name, start.device_id),
        ),
    ensures
        device_alike(maintenance_step(m, d, reply).1, start, peer),
        kept_alike(
            maintenance_step(m, d, reply).0.before,
            start.records,
            peer,
            signal::address_text(start.name, start.device_id),
        ),
{
    let local = signal::address_text(start.name, start.device_id);
    if let ReplyView::Keys(keys) = reply {
        let plan = device_keys::planned(d.store, d.records.signed_prekey_created_at, m.now);
        let kept = StateView { store: device_keys::store_with_keys(d.store, plan, keys), ..d };
        device::law_persisting_touches_one_peer(kept, local);
        let after = device_keys::maintained(d, keys, m.now);
        assert forall|other: Seq<char>| other != peer && other != local implies
            #[trigger] device::agree_on(after.records.sessions, start.records.sessions, other) by {
            assert(device::agree_on(d.records.sessions, start.records.sessions, other));
            assert(device::agree_on(
                device::persisted(kept, local).records.sessions,
                d.records.sessions,
                other,
            ));
        }
        assert forall|other: Seq<char>| other != peer && other != local implies
            #[trigger] device::agree_on(after.records.trusted, start.records.trusted, other) by {
            assert(device::agree_on(d.records.trusted, start.records.trusted, other));
            assert(device::agree_on(
                device::persisted(kept, local).records.trusted,
                d.records.trusted,
                other,
            ));
        }
    }
}

proof fn lemma_persisted_alike(d: StateView, start: StateView, peer: Seq<char>)
    requires
        device_alike(d, start, peer),
    ensures
        device_alike(device::persisted(d, peer), start, peer),
{
    let local = signal::address_text(start.name, start.device_id);
    let after = device::persisted(d, peer);
    device::law_persisting_touches_one_peer(d, peer);
    assert forall|other: Seq<char>| other != peer && other != local implies
        #[trigger] device::agree_on(after.records.sessions, start.records.sessions, other) by {
        assert(device::agree_on(d.records.sessions, start.records.sessions, other));
        assert(device::agree_on(after.records.sessions, d.records.sessions, other));
    }
    assert forall|other: Seq<char>| other != peer && other != local implies
        #[trigger] device::agree_on(after.records.trusted, start.records.trusted, other) by {
        assert(device::agree_on(d.records.trusted, start.records.trusted, other));
        assert(device::agree_on(after.records.trusted, d.records.trusted, other));
    }
}

/// An encryption, its maintenance and its replies so far.
pub open spec fn encryption_run(
    d: StateView,
    bundle: BundleView,
    plaintext: Seq<u8>,
    now: u64,
    replies: Seq<ReplyView>,
) -> (EncryptionView, StateView, ActionView)
    decreases replies.len(),
{
    if replies.len() == 0 {
        encryption_started(d, bundle, plaintext, now)
    } else {
        let last = encryption_run(d, bundle, plaintext, now, replies.drop_last());
        encryption_step(last.0, last.1, replies.last())
    }
}

/// A decryption, its maintenance and its replies so far.
pub open spec fn decryption_run(
    d: StateView,
    sender: Seq<char>,
    encoded: Seq<u8>,
    now: u64,
    replies: Seq<ReplyView>,
) -> (DecryptionView, StateView, ActionView)
    decreases replies.len(),
{
    if replies.len() == 0 {
        decryption_started(d, sender, encoded, now)
    } else {
        let last = decryption_run(d, sender, encoded, now, replies.drop_last());
        decryption_step(last.0, last.1, replies.last())
    }
}

proof fn lemma_encryption_alike(
    d: StateView,
    bundle: BundleView,
    plaintext: Seq<u8>,
    now: u64,
    replies: Seq<ReplyView>,
)
    ensures
        ({
            let peer = signal::address_text(bundle.name, bundle.device_id);
            let local = signal::address_text(d.name, d.device_id);
            let run = encryption_run(d, bundle, plaintext, now, replies);
            &&& run.0.peer == peer
            &&& run.0.identity == bundle.identity_key
            &&& run.0.plaintext == plaintext
            &&& device_alike(run.1, d, peer)
            &&& kept_alike(run.0.before, d.records, peer, local)
            &&& kept_alike(run.0.maintenance.before, d.records, peer, local)
        }),
    decreases replies.len(),
{
    let peer = signal::address_text(bundle.name, bundle.device_id);
    if replies.len() > 0 {
        lemma_encryption_alike(d, bundle, plaintext, now, replies.drop_last());
        let (e, before, action) = encryption_run(
            d,
            bundle,
            plaintext,
            now,
            replies.drop_last(),
        );
        let reply = replies.last();
        lemma_maintenance_alike(e.maintenance, before, reply, d, peer);
        if let ReplyView::Encrypted { session, message_type, ciphertext } = reply {
            lemma_persisted_alike(device::with_session(before, peer, session), d, peer);
        }
    }
}

/// An encryption for a peer, however far it comes and whatever fails, leaves every other
/// peer with the session, the trust and the revocation that it has. Once the device is
/// opened again it treats every other peer as before.
pub proof fn law_encryption_touches_one_peer(
    d: StateView,
    bundle: BundleView,
    plaintext: Seq<u8>,
    now: u64,
    replies: Seq<ReplyView>,
    other: Seq<char>,
    shown: Seq<u8>,
    encoded: Seq<u8>,
)
    requires
        other != signal::address_text(bundle.name, bundle.device_id),
        other != signal::address_text(d.name, d.device_id),
    ensures
        ({
            let after = encryption_run(d, bundle, plaintext, now, replies).1;
            let again = device::loaded(device::opened(after.records), other);
            let before = device::loaded(device::opened(d.records), other);
            &&& others_alike(
                after.records,
                d.records,
                signal::address_text(bundle.name, bundle.device_id),
                signal::address_text(d.name, d.device_id),
            )
            &&& device::encryption_allowed(again, other, shown) == device::encryption_allowed(
                before,
                other,
                shown,
            )
            &&& device::decryption_allowed(again, other, encoded) == device::decryption_allowed(
                before,
                other,
                encoded,
            )
        }),
{
    lemma_encryption_alike(d, bundle, plaintext, now, replies);
    let after = encryption_run(d, bundle, plaintext, now, replies).1;
    assert(device::agree_on(after.records.sessions, d.records.sessions, other));
    assert(device::agree_on(after.records.trusted, d.records.trusted, other));
}

proof fn lemma_decryption_alike(
    d: StateView,
    sender: Seq<char>,
    encoded: Seq<u8>,
    now: u64,
    replies: Seq<ReplyView>,
)
    ensures
        ({
            let local = signal::address_text(d.name, d.device_id);
            let run = decryption_run(d, sender, encoded, now, replies);
            &&& run.0.sender == sender
            &&& device_alike(run.1, d, sender)
            &&& kept_alike(run.0.before, d.records, sender, local)
            &&& kept_alike(run.0.maintenance.before, d.records, sender, local)
        }),
    decreases replies.len(),
{
    if replies.len() > 0 {
        lemma_decryption_alike(d, sender, encoded, now, replies.drop_last());
        let (e, before, action) = decryption_run(d, sender, encoded, now, replies.drop_last());
        let reply = replies.last();
        lemma_maintenance_alike(e.maintenance, before, reply, d, sender);
        lemma_persisted_alike(maintenance_step(e.maintenance, before, reply).1, d, sender);
    }
}

/// A decryption from a sender, however far it comes and whatever fails, leaves every
/// other peer with the session, the trust and the revocation that it has. Once the
/// device is opened again it treats every other peer as before.
pub proof fn law_decryption_touches_one_peer(
    d: StateView,
    sender: Seq<char>,
    encoded: Seq<u8>,
    now: u64,
    replies: Seq<ReplyView>,
    other: Seq<char>,
    shown: Seq<u8>,
    another: Seq<u8>,
)
    requires
        other != sender,
        other != signal::address_text(d.name, d.device_id),
    ensures
        ({
            let after = decryption_run(d, sender, encoded, now, replies).1;
            let again = device::loaded(device::opened(after.records), other);
            let before = device::loaded(device::opened(d.records), other);
            &&& others_alike(
                after.records,
                d.records,
                sender,
                signal::address_text(d.name, d.device_id),
            )
            &&& device::encryption_allowed(again, other, shown) == device::encryption_allowed(
                before,
                other,
                shown,
            )
            &&& device::decryption_allowed(again, other, another) == device::decryption_allowed(
                before,
                other,
                another,
            )
        }),
{
    lemma_decryption_alike(d, sender, encoded, now, replies);
    let after = decryption_run(d, sender, encoded, now, replies).1;
    assert(device::agree_on(after.records.sessions, d.records.sessions, other));
    assert(device::agree_on(after.records.trusted, d.records.trusted, other));
}

/// Encryption is asked for the plaintext that was given and for the peer of the bundle,
/// only where that peer is trusted with the identity of the bundle and not revoked. A
/// device without a name never gets there.
pub proof fn law_only_the_given_plaintext_is_encrypted(
    d: StateView,
    bundle: BundleView,
    plaintext: Seq<u8>,
    now: u64,
    replies: Seq<ReplyView>,
)
    requires
        encryption_run(d, bundle, plaintext, now, replies).2 is Encrypt,
    ensures
        ({
            let run = encryption_run(d, bundle, plaintext, now, replies);
            let peer = signal::address_text(bundle.name, bundle.device_id);
            &&& d.name != UNCONFIGURED@
            &&& run.2->Encrypt_plaintext == plaintext
            &&& run.2->has_session <==> run.1.store.sessions.contains_key(peer)
            &&& run.1.store.identities.contains_key(peer)
            &&& run.1.store.identities[peer] == bundle.identity_key
            &&& run.1.records.revocations.contains_key(peer)
                ==> run.1.records.revocations[peer].new_fingerprint == Some(
                text::hex(bundle.identity_key),
            )
        }),
{
    if replies.len() > 0 {
        lemma_encryption_alike(d, bundle, plaintext, now, replies.drop_last());
        lemma_configured(d, bundle, plaintext, now, replies.drop_last());
        let (e, before, action) = encryption_run(d, bundle, plaintext, now, replies.drop_last());
        let (maintenance, d1, next) = maintenance_step(e.maintenance, before, replies.last());
        assert(!(next is Encrypt));
        device::law_who_is_encrypted_for(
            device::loaded(d1, e.peer),
            e.peer,
            bundle.identity_key,
        );
    }
}

proof fn lemma_configured(
    d: StateView,
    bundle: BundleView,
    plaintext: Seq<u8>,
    now: u64,
    replies: Seq<ReplyView>,
)
    ensures
        d.name == UNCONFIGURED@ ==> encryption_run(d, bundle, plaintext, now, replies).0.stage
            == EncryptionStage::Ended,
    decreases replies.len(),
{
    if replies.len() > 0 {
        lemma_configured(d, bundle, plaintext, now, replies.drop_last());
    }
}

/// What was decrypted is the plaintext that came back. The session is the one that came
/// back with it, and the prekeys are those that are left: one that was used up is gone.
pub proof fn law_decrypted_plaintext_is_kept(
    e: DecryptionView,
    d: StateView,
    plaintext: Seq<u8>,
    session: Seq<u8>,
    prekeys: Map<u32, Seq<u8>>,
    kyber_prekeys: Map<u32, Seq<u8>>,
)
    requires
        e.stage == DecryptionStage::Decrypting,
        d.records.failures.consecutive_failures < u32::MAX,
    ensures
        ({
            let reply = ReplyView::Decrypted { plaintext, session, prekeys, kyber_prekeys };
            let (next, after, action) = decryption_step(e, d, reply);
            &&& next.plaintext == plaintext
            &&& next.sender == e.sender
            &&& after.store.prekeys == prekeys
            &&& after.store.kyber_prekeys == kyber_prekeys
            &&& after.store.signed_prekeys == d.store.signed_prekeys
            &&& after.store.identities == d.store.identities
            &&& after.store.sessions.contains_key(e.sender)
            &&& after.store.sessions[e.sender] == session
            &&& forall|other: Seq<char>|
                other != e.sender ==> #[trigger] device::agree_on(
                    after.store.sessions,
                    d.store.sessions,
                    other,
                )
        }),
{
}

/// An envelope of a sender is given to be decrypted as it was read, and refused before
/// that where it is no envelope or the sender is not to be decrypted from.
pub proof fn law_envelope_is_decrypted_as_it_came(
    d: StateView,
    sender: Seq<char>,
    encoded: Seq<u8>,
    now: u64,
)
    ensures
        ({
            let (e, after, action) = decryption_started(d, sender, encoded, now);
            &&& e.sender == sender
            &&& e.now == now
            &&& after.records == d.records
            &&& action is Decrypt ==> signal::envelope_decoding(encoded) == Ok::<
                EnvelopeView,
                SignalError,
            >(action->envelope)
            &&& action is Decrypt <==> device::decryption_allowed(after, sender, encoded) is Ok
            &&& action is Decrypt <==> e.stage == DecryptionStage::Decrypting
            &&& action is Decrypt || action is Fail
        }),
{
}

/// A new identity is written with nothing of the old one's peers and keys. The record
/// that is signed for it is written behind the others as it was signed.
pub proof fn law_replacement_is_written_down(
    e: ReplacementView,
    d: StateView,
    pair: Seq<u8>,
    random: u32,
    signature: Seq<u8>,
)
    ensures
        e.stage == ReplacementStage::Generating ==> {
            let (next, after, action) = replacement_step(
                e,
                d,
                ReplyView::Identity { pair, random },
            );
            &&& action == ActionView::Save
            &&& after.records.identity_pair == pair
            &&& after.records.registration_id == random % 0x4000
            &&& after.records.sessions == Map::<Seq<char>, Seq<u8>>::empty()
            &&& after.records.trusted == Map::<Seq<char>, Seq<u8>>::empty()
            &&& after.records.prekeys == Map::<u32, Seq<u8>>::empty()
            &&& after.records.device == d.records.device
            &&& after.records.revocations == d.records.revocations
            &&& after.records.recoveries == d.records.recoveries
            &&& next.old_identity == e.old_identity
        },
        e.stage == ReplacementStage::Signing && e.record is Some ==> {
            let (next, after, action) = replacement_step(e, d, ReplyView::Signature(signature));
            &&& action is Fail ==> after == d
            &&& action == ActionView::Save || action is Fail
            &&& action == ActionView::Save ==> {
                &&& after.records.recoveries.len() == d.records.recoveries.len() + 1
                &&& after.records.recoveries.drop_last() == d.records.recoveries
                &&& Ok::<Seq<u8>, SignalError>(after.records.recoveries.last().record)
                    == bundle::recovery_encoding(RecoveryView { signature, ..e.record->0 })
                &&& after.records.recoveries.last().old_fingerprint == text::hex(
                    (e.record->0).old_identity,
                )
                &&& after.records.recoveries.last().new_fingerprint == text::hex(
                    (e.record->0).new_bundle.identity_key,
                )
                &&& after.records.recoveries.last().effective_at == (e.record->0).effective_at
                &&& after.store == d.store
                &&& next.record == Some(RecoveryView { signature, ..e.record->0 })
            }
        },
{
    if e.stage == ReplacementStage::Signing && e.record is Some {
        let (next, after, action) = replacement_step(e, d, ReplyView::Signature(signature));
        if action == ActionView::Save {
            assert(after.records.recoveries.drop_last() =~= d.records.recoveries);
        }
    }
}

} // verus!
