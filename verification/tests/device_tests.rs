use safechat::bundle::{identity_fingerprint, IdentityRecoveryRecord, SignalPreKeyBundle};
use safechat::device::{
    registration_id, reject_plaintext_database, DeviceError, DeviceRecords, KeyMaintenanceStatus,
    SqliteSignalState,
};
use safechat::device_keys::{
    KeyMaintenanceReport, KeyPlan, NewKeys, PublicKeys, PREKEY_LOW_WATERMARK, PREKEY_TARGET,
    SIGNED_PREKEY_OVERLAP, SIGNED_PREKEY_ROTATION_SECS,
};
use safechat::device_ops::{DeviceAction, DeviceReply};
use safechat::signal::{SafeChatMessage, SignalEnvelope, SignalError, PREKEY_TYPE, WHISPER_TYPE};
use safechat::table::{KeyRow, KeyTable, TextTable};

const NOW: u64 = 1_700_000_000;

fn text(value: &str) -> String {
    value.to_owned()
}

fn records(identity_pair: &[u8]) -> DeviceRecords {
    DeviceRecords {
        device: None,
        identity_pair: identity_pair.to_vec(),
        registration_id: registration_id(0xffff_ffff),
        sessions: TextTable::new(),
        trusted: TextTable::new(),
        prekeys: KeyTable::new(),
        signed_prekeys: KeyTable::new(),
        kyber_prekeys: KeyTable::new(),
        signed_prekey_created_at: NOW,
        failures: KeyMaintenanceStatus {
            consecutive_failures: 0,
            total_failures: 0,
            last_error: None,
            last_failed_at: None,
        },
        revocations: TextTable::new(),
        recoveries: Vec::new(),
    }
}

fn bundle(name: &str, identity: &[u8]) -> SignalPreKeyBundle {
    SignalPreKeyBundle {
        name: text(name),
        device_id: 1,
        registration_id: 1,
        pre_key: None,
        signed_pre_key_id: 1,
        signed_pre_key_public: vec![1],
        signed_pre_key_signature: vec![2],
        kyber_pre_key_id: 1,
        kyber_pre_key_public: vec![3],
        kyber_pre_key_signature: vec![4],
        identity_key: identity.to_vec(),
    }
}

fn keys(plan: &KeyPlan) -> NewKeys {
    NewKeys {
        first_keys: if plan.first_keys {
            Some((vec![1], vec![1], vec![1]))
        } else {
            None
        },
        prekeys: plan.prekey_ids.iter().map(|id| vec![*id as u8]).collect(),
        signed_prekey: plan.signed_prekey_id.map(|id| vec![id as u8]),
    }
}

/// A device whose disk and whose cipher are simulated. A message carries the number
/// that follows the session's, and the first message of a session uses a prekey up.
struct Device {
    state: SqliteSignalState,
    disk: DeviceRecords,
    now: u64,
    /// Counts down to the write that fails.
    failing_save: u32,
}

impl Device {
    fn initialize(name: &str) -> Device {
        let mut state = SqliteSignalState::open(records(&[name.len() as u8]));
        state.initialize(name, 1).unwrap();
        let disk = state.records.copy();
        Device {
            state,
            disk,
            now: NOW,
            failing_save: 0,
        }
    }

    fn reopen(self) -> Device {
        Device {
            state: SqliteSignalState::open(self.disk.copy()),
            ..self
        }
    }

    fn identity(&self) -> Vec<u8> {
        self.state.records.identity_pair.clone()
    }

    fn session(&self, peer: &str) -> Option<u8> {
        self.state.store.sessions.get(peer).map(|record| record[0])
    }

    fn own_bundle(&self) -> SignalPreKeyBundle {
        let ids = self.state.bundle_key_ids().unwrap();
        let keys = PublicKeys {
            prekey: vec![1],
            signed_prekey: vec![2],
            signed_prekey_signature: vec![3],
            kyber_prekey: vec![4],
            kyber_prekey_signature: vec![5],
            identity: self.identity(),
        };
        self.state.export_bundle(ids, keys)
    }

    fn failed(reason: &str) -> DeviceReply {
        DeviceReply::Failed(text(reason))
    }

    fn perform(&mut self, peer: &SignalPreKeyBundle, action: DeviceAction) -> DeviceReply {
        let address = peer.address();
        match action {
            DeviceAction::MakeKeys(plan) => DeviceReply::Keys(keys(&plan)),
            DeviceAction::Save => {
                self.failing_save = self.failing_save.saturating_sub(1);
                if self.failing_save == 1 {
                    return Device::failed("injected persistence failure before commit");
                }
                self.disk = self.state.records.copy();
                DeviceReply::Saved
            }
            DeviceAction::Encrypt {
                has_session,
                plaintext,
            } => {
                let number = self.session(&address).map_or(1, |last| last + 1);
                let prekey = peer.pre_key.as_ref().map_or(0, |key| key.id as u8);
                assert_eq!(has_session, number > 1);
                let mut ciphertext = vec![number, prekey];
                ciphertext.extend(plaintext);
                DeviceReply::Encrypted {
                    session: vec![number],
                    message_type: if has_session { WHISPER_TYPE } else { PREKEY_TYPE },
                    ciphertext,
                }
            }
            DeviceAction::Decrypt { envelope } => {
                let number = envelope.ciphertext[0];
                if self.session(&address).map_or(1, |last| last + 1) != number {
                    return Device::failed("message does not follow the session");
                }
                let used = u32::from(envelope.ciphertext[1]);
                let mut prekeys: Vec<KeyRow> = self.state.store.prekeys.copy().rows;
                if envelope.message_type == PREKEY_TYPE {
                    if !self.state.store.prekeys.has(used) {
                        return Device::failed("prekey is gone");
                    }
                    prekeys.retain(|row| row.id != used);
                }
                DeviceReply::Decrypted {
                    plaintext: envelope.ciphertext[2..].to_vec(),
                    session: vec![number],
                    prekeys,
                    kyber_prekeys: self.state.store.kyber_prekeys.copy().rows,
                }
            }
            DeviceAction::GenerateIdentity => DeviceReply::Identity {
                pair: vec![99],
                random: 5,
            },
            DeviceAction::ExportBundle => DeviceReply::Bundle(self.own_bundle()),
            DeviceAction::Sign { payload } => {
                DeviceReply::Signature(vec![payload.len() as u8; 64])
            }
            DeviceAction::Done | DeviceAction::Fail(_) => unreachable!(),
        }
    }

    fn run(
        &mut self,
        peer: &SignalPreKeyBundle,
        first: DeviceAction,
        mut step: impl FnMut(&mut SqliteSignalState, DeviceReply) -> DeviceAction,
    ) -> Result<(), DeviceError> {
        let mut action = first;
        loop {
            match action {
                DeviceAction::Done => return Ok(()),
                DeviceAction::Fail(error) => return Err(error),
                other => {
                    let reply = self.perform(peer, other);
                    action = step(&mut self.state, reply);
                }
            }
        }
    }

    fn maintain(&mut self) -> Result<KeyMaintenanceReport, DeviceError> {
        let (mut operation, action) = self.state.maintain_key_inventory(self.now);
        let nobody = bundle("nobody", &[0]);
        self.run(&nobody, action, |state, reply| operation.step(state, reply))?;
        Ok(operation.report)
    }

    fn export_bundle(&mut self) -> Result<SignalPreKeyBundle, DeviceError> {
        self.maintain()?;
        Ok(self.own_bundle())
    }

    fn encrypt_for(
        &mut self,
        peer: &SignalPreKeyBundle,
        plaintext: &[u8],
    ) -> Result<Vec<u8>, DeviceError> {
        let (mut operation, action) = self.state.encrypt_for(peer, plaintext, self.now);
        self.run(peer, action, |state, reply| operation.step(state, reply))?;
        Ok(operation.envelope)
    }

    fn decrypt_from(
        &mut self,
        peer: &SignalPreKeyBundle,
        encoded: &[u8],
    ) -> Result<Vec<u8>, DeviceError> {
        let (mut operation, action) =
            self.state
                .decrypt_from(&peer.address(), encoded, self.now);
        self.run(peer, action, |state, reply| operation.step(state, reply))?;
        Ok(operation.plaintext)
    }

    fn replace_identity(&mut self) -> Result<IdentityRecoveryRecord, DeviceError> {
        let (mut operation, action) = self
            .state
            .replace_identity_with_recovery(self.identity(), self.now);
        let nobody = bundle("nobody", &[0]);
        self.run(&nobody, action, |state, reply| operation.step(state, reply))?;
        Ok(operation.record.unwrap())
    }
}

fn paired_states() -> (Device, Device, SignalPreKeyBundle, SignalPreKeyBundle) {
    let mut alice = Device::initialize("alice");
    let mut bob = Device::initialize("bob");
    let alice_bundle = alice.export_bundle().unwrap();
    let bob_bundle = bob.export_bundle().unwrap();
    alice.state.trust_bundle(&bob_bundle).unwrap();
    alice.disk = alice.state.records.copy();
    bob.state.trust_bundle(&alice_bundle).unwrap();
    bob.disk = bob.state.records.copy();
    (alice, bob, alice_bundle, bob_bundle)
}

fn initialized(name: &str) -> SqliteSignalState {
    let mut device = Device::initialize(name);
    device.maintain().unwrap();
    device.state
}

fn check_encrypt(
    state: &mut SqliteSignalState,
    peer: &SignalPreKeyBundle,
) -> Result<bool, DeviceError> {
    state.check_encrypt(&peer.address(), &peer.identity_key)
}

fn recovery(old: &[u8], new: &SignalPreKeyBundle) -> IdentityRecoveryRecord {
    IdentityRecoveryRecord {
        old_identity: old.to_vec(),
        new_bundle: new.clone(),
        effective_at: NOW,
        confirmation: true,
        signature: vec![9; 64],
    }
}

#[test]
fn duplicate_trust_is_idempotent_and_survives_sqlite_reopen() {
    let (mut alice, _bob, _alice_bundle, bob_bundle) = paired_states();
    alice.state.trust_bundle(&bob_bundle).unwrap();

    let mut reopened = alice.reopen();
    let recipient = reopened.encrypt_for(&bob_bundle, b"after reopen");
    assert!(
        recipient.is_ok(),
        "duplicate trust must not break the session"
    );
}

#[test]
fn signal_adapter_exporting_bundle_replenishes_one_time_prekeys() {
    let mut state = Device::initialize("alice");
    state.export_bundle().unwrap();
    assert!(state.state.store.prekeys.count() >= PREKEY_TARGET);
}

#[test]
fn ratchet_update_can_be_retried_after_persist_failure() {
    let (mut alice, mut bob, alice_bundle, bob_bundle) = paired_states();
    let first = alice.encrypt_for(&bob_bundle, b"first").unwrap();
    assert_eq!(bob.decrypt_from(&alice_bundle, &first).unwrap(), b"first");

    alice.failing_save = 3;
    assert!(alice.encrypt_for(&bob_bundle, b"retry me").is_err());
    let mut alice = alice.reopen();
    let retry = alice.encrypt_for(&bob_bundle, b"retry me").unwrap();
    assert_eq!(
        bob.decrypt_from(&alice_bundle, &retry).unwrap(),
        b"retry me"
    );
}

#[test]
fn prekey_consumption_can_be_retried_after_persist_failure() {
    let (mut alice, mut bob, alice_bundle, bob_bundle) = paired_states();
    let first = alice.encrypt_for(&bob_bundle, b"prekey retry").unwrap();
    bob.failing_save = 3;
    assert!(bob.decrypt_from(&alice_bundle, &first).is_err());
    let mut bob = bob.reopen();
    assert_eq!(
        bob.decrypt_from(&alice_bundle, &first).unwrap(),
        b"prekey retry"
    );
    let mut bob = bob.reopen();
    bob.state.revoke_device("alice.1", NOW);
    bob.state.trust_bundle(&alice_bundle).unwrap();
    assert_eq!(
        bob.decrypt_from(&alice_bundle, &first),
        Err(DeviceError::OutsideFailed)
    );
}

#[test]
fn signed_prekey_rotation_can_be_retried_after_persist_failure() {
    let mut state = Device::initialize("alice");
    state.export_bundle().unwrap();
    let initial_count = state.state.store.signed_prekeys.count();
    state.state.records.signed_prekey_created_at = 0;
    state.disk = state.state.records.copy();
    state.failing_save = 2;
    assert!(state.export_bundle().is_err());
    let mut reopened = state.reopen();
    assert_eq!(reopened.state.store.signed_prekeys.count(), initial_count);
    reopened.export_bundle().unwrap();
    assert!(reopened.state.store.signed_prekeys.count() <= SIGNED_PREKEY_OVERLAP);
}

#[test]
fn identity_replacement_changes_fingerprint_and_rebuilds_keys() {
    let mut state = Device::initialize("alice");
    let old_fingerprint = identity_fingerprint(&state.identity());
    let record = state.replace_identity().unwrap();
    let new_fingerprint = record.new_fingerprint();
    assert_ne!(old_fingerprint, new_fingerprint);
    assert_eq!(identity_fingerprint(&state.identity()), new_fingerprint);
    assert_eq!(record.old_fingerprint(), old_fingerprint);
    assert!(state.state.store.prekeys.count() >= PREKEY_TARGET);
    assert!(record.confirmation);
    assert_eq!(
        record.signature,
        vec![record.payload().unwrap().len() as u8; 64]
    );
    assert_eq!(state.disk.recoveries.len(), 1);
    assert_eq!(state.disk.registration_id, 5);
}

#[test]
fn identity_replacement_can_be_retried() {
    let (mut alice, _bob, _alice_bundle, bob_bundle) = paired_states();
    let identity = alice.identity();
    alice.failing_save = 2;
    assert_eq!(
        alice.replace_identity().unwrap_err(),
        DeviceError::OutsideFailed
    );
    assert_eq!(alice.identity(), identity);
    assert!(alice.encrypt_for(&bob_bundle, b"still here").is_ok());
    alice.failing_save = 4;
    assert!(alice.replace_identity().is_err());
    assert_ne!(alice.identity(), identity);
    assert_eq!(alice.disk.recoveries.len(), 0);
    assert_eq!(
        alice.encrypt_for(&bob_bundle, b"no longer trusted"),
        Err(DeviceError::PeerNotTrusted)
    );
}

#[test]
fn signed_recovery_replaces_a_trusted_peer_and_revokes_old_identity() {
    let mut bob = initialized("bob");
    let alice = bundle("alice", &[5]);
    bob.trust_bundle(&alice).unwrap();
    let new_bundle = bundle("alice", &[6]);
    let record = recovery(&[5], &new_bundle);
    assert_eq!(record.old_fingerprint(), alice.fingerprint());
    assert_ne!(record.new_fingerprint(), alice.fingerprint());
    bob.accept_recovery(&record, true, true).unwrap();
    assert!(bob.check_decrypt("alice.1", &[]).is_err());
    assert_eq!(
        bob.trusted_identity("alice.1"),
        Some(&new_bundle.identity_key)
    );
    assert_eq!(check_encrypt(&mut bob, &alice), Err(DeviceError::PeerNotTrusted));
    assert_eq!(check_encrypt(&mut bob, &new_bundle), Ok(false));
}

#[test]
fn explicit_device_revocation_is_persistent_and_reports_maintenance_failures() {
    let mut alice = initialized("alice");
    let bob = bundle("bob", &[5]);
    alice.trust_bundle(&bob).unwrap();
    alice.revoke_device(&bob.address(), NOW);
    assert!(check_encrypt(&mut alice, &bob).is_err());
    let mut reopened = SqliteSignalState::open(alice.records);
    assert!(reopened.key_maintenance_status().last_error.is_none());
    assert_eq!(check_encrypt(&mut reopened, &bob), Err(DeviceError::PeerRevoked));
    assert_eq!(
        reopened.check_decrypt("bob.1", &[]),
        Err(DeviceError::SenderRevoked)
    );
}

#[test]
fn maintenance_failures_are_counted_and_cleared_after_recovery() {
    let mut state = Device::initialize("alice");
    state.export_bundle().unwrap();
    state.state.records.signed_prekey_created_at = 0;
    state.disk = state.state.records.copy();
    state.failing_save = 2;
    assert!(state.export_bundle().is_err());
    let status = state.state.key_maintenance_status();
    assert_eq!(status.consecutive_failures, 1);
    assert!(status.last_error.is_some());
    assert_eq!(
        status.last_error.as_deref(),
        Some(
            "persisting Signal key lifecycle state: injected persistence failure before commit"
        )
    );
    state.export_bundle().unwrap();
    assert_eq!(
        state.state.key_maintenance_status().consecutive_failures,
        0
    );
    assert_eq!(state.state.key_maintenance_status().total_failures, 1);
}

#[test]
fn keys_that_cannot_be_made_are_counted() {
    let mut state = SqliteSignalState::open(records(&[1]));
    let (mut operation, action) = state.maintain_key_inventory(NOW);
    assert!(matches!(action, DeviceAction::MakeKeys(_)));
    let action = operation.step(&mut state, Device::failed("no randomness"));
    assert!(matches!(action, DeviceAction::Save));
    let action = operation.step(&mut state, DeviceReply::Saved);
    assert!(matches!(
        action,
        DeviceAction::Fail(DeviceError::OutsideFailed)
    ));
    assert_eq!(
        state.key_maintenance_status().last_error.as_deref(),
        Some("maintaining Signal key inventory: no randomness")
    );
    let action = operation.step(&mut state, DeviceReply::Saved);
    assert!(matches!(
        action,
        DeviceAction::Fail(DeviceError::UnexpectedReply)
    ));
}

#[test]
fn unfit_keys_are_refused() {
    let mut state = SqliteSignalState::open(records(&[1]));
    let (mut operation, _) = state.maintain_key_inventory(NOW);
    let unfit = NewKeys {
        first_keys: None,
        prekeys: Vec::new(),
        signed_prekey: None,
    };
    let action = operation.step(&mut state, DeviceReply::Keys(unfit));
    assert!(matches!(
        action,
        DeviceAction::Fail(DeviceError::UnexpectedReply)
    ));
    assert_eq!(state.store.prekeys.count(), 0);
}

#[test]
fn prekey_numbers_can_run_out() {
    let mut state = SqliteSignalState::open(records(&[1]));
    state.store.prekeys.put(u32::MAX - 29, vec![1]);
    assert!(!state.prekeys_have_room());
    let (mut operation, action) = state.maintain_key_inventory(NOW);
    assert!(matches!(action, DeviceAction::Save));
    let action = operation.step(&mut state, DeviceReply::Saved);
    assert!(matches!(
        action,
        DeviceAction::Fail(DeviceError::NoPrekeyNumber)
    ));
    let status = state.key_maintenance_status();
    assert_eq!(status.consecutive_failures, 1);
    assert_eq!(status.total_failures, 1);
    assert_eq!(
        status.last_error.as_deref(),
        Some("maintaining Signal key inventory: no prekey number is left")
    );
}

#[test]
fn large_prekey_numbers_are_no_failure() {
    let mut state = SqliteSignalState::open(records(&[1]));
    state.store.prekeys.put(u32::MAX - 30, vec![1]);
    let (mut operation, action) = state.maintain_key_inventory(NOW);
    let DeviceAction::MakeKeys(plan) = action else {
        panic!("no keys are asked for");
    };
    assert_eq!(plan.prekey_ids.last(), Some(&u32::MAX));
    let action = operation.step(&mut state, DeviceReply::Keys(keys(&plan)));
    assert!(matches!(action, DeviceAction::Save));
    let action = operation.step(&mut state, DeviceReply::Saved);
    assert!(matches!(action, DeviceAction::Done));
    assert_eq!(state.store.prekeys.count(), PREKEY_TARGET);
    let (_, action) = state.maintain_key_inventory(NOW);
    assert!(matches!(action, DeviceAction::MakeKeys(_)));
    assert_eq!(state.key_maintenance_status().total_failures, 0);
}

#[test]
fn a_message_travels_with_its_id() {
    let (mut alice, mut bob, alice_bundle, bob_bundle) = paired_states();
    let (id, mut operation, action) = alice
        .state
        .encrypt_message_for(&bob_bundle, b"hello", NOW)
        .unwrap();
    alice
        .run(&bob_bundle, action, |state, reply| {
            operation.step(state, reply)
        })
        .unwrap();
    let (mut opening, action) =
        bob.state
            .decrypt_from(&alice_bundle.address(), &operation.envelope, NOW);
    bob.run(&alice_bundle, action, |state, reply| {
        opening.step(state, reply)
    })
    .unwrap();
    let message: SafeChatMessage = opening.message().unwrap();
    assert_eq!(message.id, id);
    assert_eq!(message.plaintext, b"hello");
    assert!(alice
        .state
        .encrypt_message_for(&bob_bundle, &vec![7; 8 * 1024 * 1024 + 1], NOW)
        .is_err());
}

#[test]
fn errors_are_told_in_words() {
    assert_eq!(
        DeviceError::PeerRevoked.message(),
        "peer device is revoked; verify a replacement bundle first"
    );
    assert_eq!(
        DeviceError::Frame(SignalError::InvalidEnvelope).message(),
        "invalid Signal envelope"
    );
    assert_eq!(
        SignalError::ZeroDeviceId.message(),
        "device ID must not be zero"
    );
}

#[test]
fn one_time_prekeys_are_replenished() {
    let state = initialized("alice");
    assert_eq!(state.store.prekeys.count(), PREKEY_TARGET);
    assert_eq!(state.records.prekeys.count(), PREKEY_TARGET);
    assert_eq!(state.store.signed_prekeys.count(), 1);
    assert_eq!(state.bundle_key_ids().unwrap(), (1, 1, 1));
    let plan = state.plan_key_inventory(NOW);
    assert!(!plan.first_keys);
    assert!(plan.prekey_ids.is_empty());
    assert!(plan.signed_prekey_id.is_none());
}

#[test]
fn signed_prekeys_are_rotated_and_overlap() {
    let mut device = Device::initialize("alice");
    device.maintain().unwrap();
    for expected in [2, 3, 4] {
        device.now += SIGNED_PREKEY_ROTATION_SECS - 1;
        assert!(!device.maintain().unwrap().rotated);
        device.now += 1;
        let plan = device.state.plan_key_inventory(device.now);
        assert_eq!(plan.signed_prekey_id, Some(expected));
        assert!(device.maintain().unwrap().rotated);
    }
    let state = device.state;
    assert_eq!(state.store.signed_prekeys.count(), SIGNED_PREKEY_OVERLAP);
    assert!(state.store.signed_prekeys.has(3));
    assert!(state.store.signed_prekeys.has(4));
    assert!(!state.store.signed_prekeys.has(1));
}

#[test]
fn a_used_prekey_does_not_come_back() {
    let (mut alice, mut bob, alice_bundle, bob_bundle) = paired_states();
    let first = alice.encrypt_for(&bob_bundle, b"one").unwrap();
    assert_eq!(
        SignalEnvelope::decode(&first).unwrap().message_type,
        PREKEY_TYPE
    );
    bob.decrypt_from(&alice_bundle, &first).unwrap();
    let used = bob_bundle.pre_key.as_ref().unwrap().id;
    let reopened = bob.reopen();
    assert!(!reopened.state.store.prekeys.has(used));
    assert_eq!(reopened.state.store.prekeys.count(), PREKEY_TARGET - 1);
    assert!(PREKEY_TARGET - 1 >= PREKEY_LOW_WATERMARK);
    let second = alice.encrypt_for(&bob_bundle, b"two").unwrap();
    assert_eq!(
        SignalEnvelope::decode(&second).unwrap().message_type,
        WHISPER_TYPE
    );
}

#[test]
fn what_was_not_written_down_is_lost() {
    let (mut alice, mut bob, alice_bundle, bob_bundle) = paired_states();
    let first = alice.encrypt_for(&bob_bundle, b"one").unwrap();
    bob.failing_save = 2;
    assert!(bob.decrypt_from(&alice_bundle, &first).is_err());
    let used = bob_bundle.pre_key.as_ref().unwrap().id;
    assert!(!bob.state.store.prekeys.has(used));
    assert_eq!(bob.state.key_maintenance_status().total_failures, 0);
    assert!(bob.reopen().state.store.prekeys.has(used));
}

#[test]
fn a_recovery_must_be_confirmed_signed_and_trusted() {
    let mut bob = initialized("bob");
    let alice = bundle("alice", &[5]);
    bob.trust_bundle(&alice).unwrap();
    let record = recovery(&[5], &bundle("alice", &[6]));
    assert_eq!(
        bob.accept_recovery(&record, false, true),
        Err(DeviceError::ConfirmationRequired)
    );
    assert_eq!(
        bob.accept_recovery(&record, true, false),
        Err(DeviceError::InvalidRecoverySignature)
    );
    let other = recovery(&[8], &bundle("alice", &[6]));
    assert_eq!(
        bob.accept_recovery(&other, true, true),
        Err(DeviceError::NotSignedByTrustedIdentity)
    );
}

#[test]
fn a_changed_identity_is_refused() {
    let mut alice = initialized("alice");
    alice.trust_bundle(&bundle("bob", &[5])).unwrap();
    assert_eq!(
        alice.trust_bundle(&bundle("bob", &[6])),
        Err(DeviceError::PeerIdentityChanged)
    );
    assert_eq!(
        check_encrypt(&mut alice, &bundle("carol", &[7])),
        Err(DeviceError::PeerNotTrusted)
    );
    assert_eq!(
        alice.check_decrypt("carol.1", &[]),
        Err(DeviceError::SenderNotTrusted)
    );
    assert_eq!(
        alice.check_decrypt("bob.1", &[]),
        Err(DeviceError::Frame(SignalError::InvalidEnvelope))
    );
}

#[test]
fn a_device_has_one_address() {
    let mut state = SqliteSignalState::open(records(&[1]));
    let (_, action) = state.encrypt_for(&bundle("bob", &[5]), b"too early", NOW);
    assert!(matches!(
        action,
        DeviceAction::Fail(DeviceError::NotInitialized)
    ));
    state.initialize("alice", 1).unwrap();
    state.initialize("alice", 1).unwrap();
    assert_eq!(state.local_address(), "alice.1");
    assert_eq!(
        state.initialize("alice", 2),
        Err(DeviceError::InitializedForAnotherAddress)
    );
    assert_eq!(state.bundle_key_ids(), Err(DeviceError::NoPrekey));
}

#[test]
fn plaintext_databases_are_refused() {
    assert_eq!(
        reject_plaintext_database(b"SQLite format 3\0"),
        Err(DeviceError::PlaintextDatabase)
    );
    assert!(reject_plaintext_database(b"SQLite format 3").is_ok());
    assert!(reject_plaintext_database(&[7; 16]).is_ok());
    assert_eq!(registration_id(0xffff_ffff), 0x3fff);
}

#[test]
fn a_reopened_device_is_the_same_device() {
    let mut state = SqliteSignalState::open(records(&[1, 2]));
    state.initialize("alice", 3).unwrap();
    state.persist_peer("bob:1");
    let mut reopened = SqliteSignalState::open(state.records.copy());
    assert_eq!(reopened.records.identity_pair, [1, 2]);
    assert_eq!(
        reopened.records.registration_id,
        state.records.registration_id
    );
    assert_eq!(reopened.local_address(), state.local_address());
    assert!(reopened.initialize("alice", 3).is_ok());
    assert_eq!(
        reopened.initialize("alice", 4),
        Err(DeviceError::InitializedForAnotherAddress)
    );
}
