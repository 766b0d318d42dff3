//! Requests for contact between devices of the relay, and the bundles of devices.
use vstd::prelude::*;
use vstd::utf8::*;

use crate::primitives;
use crate::primitives::b64;
use crate::relay_enrollment;
use crate::relay_enrollment::{check_bundle, check_text};
use crate::relay_http;
use crate::relay_http::{
    bad_request, not_found, validate_json_accept, validate_optional_json_content, ApiError,
    ErrorView, RequestHeaders, MAX_FINGERPRINT_BYTES, MAX_ID_BYTES, MAX_LABEL_BYTES,
};
use crate::relay_mailbox;
use crate::relay_store;
use crate::relay_store::{
    ContactRow, ContactStatus, ContactView, DeviceView, RelayStore, StoreView, MAX_TIME,
};
use crate::rows;
use crate::text::same_text;

verus! {

/// How long a request for contact waits, in seconds.
pub const CONTACT_LIFETIME: u64 = 86_400;

/// The name of a status.
pub open spec fn status_name(status: ContactStatus) -> Seq<char> {
    match status {
        ContactStatus::Pending => "pending"@,
        ContactStatus::Accepted => "accepted"@,
        ContactStatus::Rejected => "rejected"@,
    }
}

impl ContactStatus {
    /// The name of the status.
    pub fn text(self) -> (name: &'static str)
        ensures
            name@ == status_name(self),
    {
        match self {
            ContactStatus::Pending => "pending",
            ContactStatus::Accepted => "accepted",
            ContactStatus::Rejected => "rejected",
        }
    }
}

/// A request for contact, as a device makes it.
#[derive(Debug)]
pub struct ContactRequestPayload {
    pub request_id: String,
    pub recipient: String,
    pub sender_name: String,
    pub sender_fingerprint: String,
    pub bundle: String,
}

/// A request for contact, as the relay answers it.
#[derive(Clone, Debug, PartialEq, Eq)]
pub struct ContactRequestResponse {
    pub request_id: String,
    pub sender_id: String,
    pub recipient: String,
    pub sender_name: String,
    pub sender_fingerprint: String,
    pub bundle: String,
    pub status: String,
    pub created_at: u64,
}

/// The contents of a [`ContactRequestResponse`].
#[verifier::ext_equal]
pub struct ContactAnswerView {
    pub request_id: Seq<char>,
    pub sender_id: Seq<char>,
    pub recipient: Seq<char>,
    pub sender_name: Seq<char>,
    pub sender_fingerprint: Seq<char>,
    pub bundle: Seq<char>,
    pub status: Seq<char>,
    pub created_at: u64,
}

impl View for ContactRequestResponse {
    type V = ContactAnswerView;

    open spec fn view(&self) -> ContactAnswerView {
        ContactAnswerView {
            request_id: self.request_id@,
            sender_id: self.sender_id@,
            recipient: self.recipient@,
            sender_name: self.sender_name@,
            sender_fingerprint: self.sender_fingerprint@,
            bundle: self.bundle@,
            status: self.status@,
            created_at: self.created_at,
        }
    }
}

pub open spec fn answer_views(answers: Seq<ContactRequestResponse>) -> Seq<ContactAnswerView> {
    answers.map_values(|answer: ContactRequestResponse| answer@)
}

/// The request with an ID.
pub open spec fn is_request(request_id: Seq<char>) -> spec_fn(ContactView) -> bool {
    |row: ContactView| row.request_id == request_id
}

/// The request with an ID that a device has received.
pub open spec fn is_received_request(request_id: Seq<char>, recipient: Seq<char>) -> spec_fn(
    ContactView,
) -> bool {
    |row: ContactView| row.request_id == request_id && row.recipient == recipient
}

/// The bundle of a request for contact, or what is refused of it.
pub open spec fn contact_check(request: ContactRequestPayload) -> Result<Seq<u8>, Seq<char>> {
    match relay_http::text_within(request.request_id@, MAX_ID_BYTES, "request ID"@) {
        Err(message) => Err(message),
        Ok(_) => match relay_http::text_within(request.recipient@, MAX_ID_BYTES, "recipient"@) {
            Err(message) => Err(message),
            Ok(_) => match relay_http::text_within(
                request.sender_name@,
                MAX_LABEL_BYTES,
                "sender name"@,
            ) {
                Err(message) => Err(message),
                Ok(_) => match relay_http::text_within(
                    request.sender_fingerprint@,
                    MAX_FINGERPRINT_BYTES,
                    "sender fingerprint"@,
                ) {
                    Err(message) => Err(message),
                    Ok(_) => relay_enrollment::bundle_in(request.bundle@),
                },
            },
        },
    }
}

/// The row of a request for contact.
pub open spec fn new_contact(
    sender: Seq<char>,
    request: ContactRequestPayload,
    bundle: Seq<u8>,
    now: u64,
) -> ContactView {
    ContactView {
        request_id: request.request_id@,
        sender,
        recipient: request.recipient@,
        sender_name: request.sender_name@,
        sender_fingerprint: request.sender_fingerprint@,
        bundle,
        status: ContactStatus::Pending,
        created_at: now as i64,
        expires_at: (now + CONTACT_LIFETIME) as i64,
    }
}

/// The requests for contact once one was made: one with the same ID stays as it is.
pub open spec fn with_contact(contacts: Seq<ContactView>, contact: ContactView) -> Seq<ContactView> {
    if rows::first_at(contacts, is_request(contact.request_id), 0) < contacts.len() {
        contacts
    } else {
        contacts.push(contact)
    }
}

/// The answer to a request for contact that was made.
pub open spec fn created_answer(sender: Seq<char>, request: ContactRequestPayload, now: u64) -> ContactAnswerView {
    ContactAnswerView {
        request_id: request.request_id@,
        sender_id: sender,
        recipient: request.recipient@,
        sender_name: request.sender_name@,
        sender_fingerprint: request.sender_fingerprint@,
        bundle: request.bundle@,
        status: "pending"@,
        created_at: now,
    }
}

/// A request for contact, as its recipient sees it.
pub open spec fn incoming_answer(row: ContactView) -> ContactAnswerView {
    ContactAnswerView {
        request_id: row.request_id,
        sender_id: row.sender,
        recipient: row.recipient,
        sender_name: row.sender_name,
        sender_fingerprint: row.sender_fingerprint,
        bundle: primitives::base64_url(row.bundle),
        status: status_name(row.status),
        created_at: relay_mailbox::unsigned(row.created_at),
    }
}

/// A request for contact, as its sender sees it: what the relay knows of the
/// recipient takes the place of what the request says of the sender.
pub open spec fn outgoing_answer(s: StoreView, row: ContactView) -> ContactAnswerView {
    let device = s.devices[rows::first_at(
        s.devices,
        relay_store::has_id(row.recipient),
        0,
    )];
    ContactAnswerView {
        request_id: row.request_id,
        sender_id: row.recipient,
        recipient: row.recipient,
        sender_name: device.device_address,
        sender_fingerprint: s.allowlist[row.recipient].fingerprint,
        bundle: primitives::base64_url(device.bundle),
        status: status_name(row.status),
        created_at: relay_mailbox::unsigned(row.created_at),
    }
}

/// A request that a device has received and not answered.
pub open spec fn is_open_request(caller: Seq<char>, now: i64) -> spec_fn(ContactView) -> bool {
    |row: ContactView|
        row.recipient == caller && row.status == ContactStatus::Pending && row.expires_at >= now
}

/// A request that a device has made to a device that is still there.
pub open spec fn is_made_request(s: StoreView, caller: Seq<char>, now: i64) -> spec_fn(
    ContactView,
) -> bool {
    |row: ContactView|
        row.sender == caller && row.expires_at >= now && s.allowlist.contains_key(row.recipient)
            && rows::first_at(s.devices, relay_store::has_id(row.recipient), 0)
            < s.devices.len()
}

/// A list with one more row, behind those that are not newer.
pub open spec fn with_newer(rows: Seq<ContactView>, row: ContactView) -> Seq<ContactView>
    decreases rows.len(),
{
    if rows.len() > 0 && rows.last().created_at > row.created_at {
        with_newer(rows.drop_last(), row).push(rows.last())
    } else {
        rows.push(row)
    }
}

/// Rows by the time at which they were made, the oldest first.
pub open spec fn by_age(rows: Seq<ContactView>) -> Seq<ContactView>
    decreases rows.len(),
{
    if rows.len() == 0 {
        Seq::empty()
    } else {
        with_newer(by_age(rows.drop_last()), rows.last())
    }
}

/// The requests that a device is shown.
pub open spec fn shown_requests(s: StoreView, caller: Seq<char>, outgoing: bool, now: u64) -> Seq<
    ContactAnswerView,
> {
    if outgoing {
        by_age(
            rows::kept(s.contacts, is_made_request(s, caller, now as i64)),
        ).map_values(|row: ContactView| outgoing_answer(s, row))
    } else {
        by_age(
            rows::kept(s.contacts, is_open_request(caller, now as i64)),
        ).map_values(|row: ContactView| incoming_answer(row))
    }
}

/// What comes of a request for contact.
pub open spec fn create_step(
    s: StoreView,
    sender: Seq<char>,
    request: ContactRequestPayload,
    now: u64,
) -> (StoreView, Result<ContactAnswerView, ErrorView>) {
    match contact_check(request) {
        Err(message) => (s, Err(relay_http::is_bad_request(message))),
        Ok(bundle) => if rows::first_at(
            s.devices,
            relay_store::has_id(request.recipient@),
            0,
        ) >= s.devices.len() {
            (s, Err(relay_http::is_not_found()))
        } else {
            (
                StoreView {
                    contacts: with_contact(
                        s.contacts,
                        new_contact(sender, request, bundle, now),
                    ),
                    ..s
                },
                Ok(created_answer(sender, request, now)),
            )
        },
    }
}

/// What comes of an answer to a request for contact: the store after it, and the
/// position of the request, or the number of requests where there is none.
pub open spec fn answer_step(
    s: StoreView,
    recipient: Seq<char>,
    request_id: Seq<char>,
    status: ContactStatus,
    open_only: bool,
) -> (StoreView, int) {
    let index = rows::first_at(s.contacts, is_received_request(request_id, recipient), 0);
    if index >= s.contacts.len() {
        (s, index)
    } else {
        (
            StoreView {
                contacts: s.contacts.update(
                    index,
                    answered(s.contacts[index], status, open_only),
                ),
                ..s
            },
            index,
        )
    }
}

fn copy_row(row: &ContactRow) -> (copy: ContactRow)
    ensures
        copy@ == row@,
{
    ContactRow {
        request_id: row.request_id.clone(),
        sender: row.sender.clone(),
        recipient: row.recipient.clone(),
        sender_name: row.sender_name.clone(),
        sender_fingerprint: row.sender_fingerprint.clone(),
        bundle: crate::bytes::copy_bytes(row.bundle.as_slice()),
        status: row.status,
        created_at: row.created_at,
        expires_at: row.expires_at,
    }
}

fn answer_incoming(row: &ContactRow) -> (answer: ContactRequestResponse)
    ensures
        answer@ == incoming_answer(row@),
{
    ContactRequestResponse {
        request_id: row.request_id.clone(),
        sender_id: row.sender.clone(),
        recipient: row.recipient.clone(),
        sender_name: row.sender_name.clone(),
        sender_fingerprint: row.sender_fingerprint.clone(),
        bundle: b64(row.bundle.as_slice()),
        status: row.status.text().to_owned(),
        created_at: #[verifier::truncate]
        (row.created_at as u64),
    }
}

/// Puts a row behind those that are not newer.
fn insert_by_age(rows: &mut Vec<ContactRow>, row: ContactRow)
    ensures
        relay_store::contact_views(final(rows)@) == with_newer(
            relay_store::contact_views(old(rows)@),
            row@,
        ),
{
    let ghost all = relay_store::contact_views(rows@);
    let mut position: usize = rows.len();
    assert(all.take(position as int) =~= all);
    assert(all.skip(position as int) =~= Seq::empty());
    assert(with_newer(all, row@) =~= with_newer(all.take(position as int), row@) + all.skip(
        position as int,
    ));
    while position > 0 && rows[position - 1].created_at > row.created_at
        invariant
            position <= rows@.len(),
            all == relay_store::contact_views(rows@),
            with_newer(all, row@) == with_newer(all.take(position as int), row@) + all.skip(
                position as int,
            ),
        decreases position,
    {
        let ghost front = all.take(position as int);
        assert(front.drop_last() =~= all.take(position - 1));
        assert(front.last() == all[position - 1]);
        assert(all[position - 1] == rows@[position - 1]@);
        assert(with_newer(front, row@) == with_newer(all.take(position - 1), row@).push(
            front.last(),
        ));
        assert(with_newer(all.take(position - 1), row@).push(front.last()) + all.skip(
            position as int,
        ) =~= with_newer(all.take(position - 1), row@) + all.skip(position - 1));
        position -= 1;
    }
    proof {
        let front = all.take(position as int);
        if position > 0 {
            assert(front.last() == all[position - 1]);
            assert(all[position - 1] == rows@[position - 1]@);
        }
        assert(with_newer(front, row@) == front.push(row@));
    }
    let ghost before = rows@;
    rows.insert(position, row);
    assert(relay_store::contact_views(rows@) =~= all.take(position as int).push(row@) + all.skip(
        position as int,
    ));
}

impl RelayStore {
    fn contact_with_id(&self, request_id: &str) -> (index: usize)
        ensures
            index <= self.contacts@.len(),
            index == rows::first_at(self@.contacts, is_request(request_id@), 0),
    {
        let mut index: usize = 0;
        while index < self.contacts.len()
            invariant
                index <= self.contacts@.len(),
                rows::first_at(self@.contacts, is_request(request_id@), 0)
                    == rows::first_at(
                    self@.contacts,
                    is_request(request_id@),
                    index as int,
                ),
            decreases self.contacts@.len() - index,
        {
            assert(self@.contacts[index as int] == self.contacts@[index as int]@);
            if same_text(self.contacts[index].request_id.as_str(), request_id) {
                return index;
            }
            index += 1;
        }
        index
    }

    fn received_contact(&self, request_id: &str, recipient: &str) -> (index: usize)
        ensures
            index <= self.contacts@.len(),
            index == rows::first_at(
                self@.contacts,
                is_received_request(request_id@, recipient@),
                0,
            ),
    {
        let mut index: usize = 0;
        while index < self.contacts.len()
            invariant
                index <= self.contacts@.len(),
                rows::first_at(
                    self@.contacts,
                    is_received_request(request_id@, recipient@),
                    0,
                ) == rows::first_at(
                    self@.contacts,
                    is_received_request(request_id@, recipient@),
                    index as int,
                ),
            decreases self.contacts@.len() - index,
        {
            assert(self@.contacts[index as int] == self.contacts@[index as int]@);
            if same_text(self.contacts[index].request_id.as_str(), request_id) && same_text(
                self.contacts[index].recipient.as_str(),
                recipient,
            ) {
                return index;
            }
            index += 1;
        }
        index
    }

    /// Takes a request for contact to a device that there is.
    pub fn create_contact(&mut self, sender: &str, request: ContactRequestPayload, now: u64) -> (result:
        Result<ContactRequestResponse, ApiError>)
        requires
            old(self).wf(),
            now <= MAX_TIME,
        ensures
            final(self).wf(),
            match contact_check(request) {
                Err(message) => {
                    &&& result matches Err(error) && error@ == relay_http::is_bad_request(message)
                    &&& final(self)@ == old(self)@
                },
                Ok(bundle) => if rows::first_at(
                    old(self)@.devices,
                    relay_store::has_id(request.recipient@),
                    0,
                ) >= old(self)@.devices.len() {
                    &&& result matches Err(error) && error@ == relay_http::is_not_found()
                    &&& final(self)@ == old(self)@
                } else {
                    &&& result matches Ok(answer) && answer@ == created_answer(
                        sender@,
                        request,
                        now,
                    )
                    &&& final(self)@ == (StoreView {
                        contacts: with_contact(
                            old(self)@.contacts,
                            new_contact(sender@, request, bundle, now),
                        ),
                        ..old(self)@
                    })
                },
            },
            ({
                let step = create_step(old(self)@, sender@, request, now);
                &&& final(self)@ == step.0
                &&& match step.1 {
                    Ok(value) => result matches Ok(answer) && answer@ == value,
                    Err(refusal) => result matches Err(error) && error@ == refusal,
                }
            }),
    {
        check_text(request.request_id.as_str(), MAX_ID_BYTES, "request ID")?;
        check_text(request.recipient.as_str(), MAX_ID_BYTES, "recipient")?;
        check_text(request.sender_name.as_str(), MAX_LABEL_BYTES, "sender name")?;
        check_text(
            request.sender_fingerprint.as_str(),
            MAX_FINGERPRINT_BYTES,
            "sender fingerprint",
        )?;
        let bundle = check_bundle(request.bundle.as_str())?;
        if self.device_with_id(request.recipient.as_str()) >= self.devices.len() {
            return Err(not_found());
        }
        if self.contact_with_id(request.request_id.as_str()) >= self.contacts.len() {
            let row = ContactRow {
                request_id: request.request_id.clone(),
                sender: sender.to_owned(),
                recipient: request.recipient.clone(),
                sender_name: request.sender_name.clone(),
                sender_fingerprint: request.sender_fingerprint.clone(),
                bundle,
                status: ContactStatus::Pending,
                created_at: now as i64,
                expires_at: (now + CONTACT_LIFETIME) as i64,
            };
            let ghost before = self.contacts@;
            self.contacts.push(row);
            assert(relay_store::contact_views(self.contacts@) =~= relay_store::contact_views(
                before,
            ).push(row@));
        }
        Ok(
            ContactRequestResponse {
                request_id: request.request_id,
                sender_id: sender.to_owned(),
                recipient: request.recipient,
                sender_name: request.sender_name,
                sender_fingerprint: request.sender_fingerprint,
                bundle: request.bundle,
                status: "pending".to_owned(),
                created_at: now,
            },
        )
    }

    /// The requests that a device has received and not answered, or those that it has
    /// made, the oldest first.
    pub fn list_contacts(&self, caller: &str, outgoing: bool, now: u64) -> (answers: Vec<
        ContactRequestResponse,
    >)
        requires
            self.wf(),
            now <= MAX_TIME,
        ensures
            answer_views(answers@) == shown_requests(self@, caller@, outgoing, now),
    {
        let ghost s = self@;
        let ghost wanted = if outgoing {
            is_made_request(s, caller@, now as i64)
        } else {
            is_open_request(caller@, now as i64)
        };
        let mut rows: Vec<ContactRow> = Vec::new();
        let mut index: usize = 0;
        assert(s.contacts.take(0) =~= Seq::empty());
        assert(relay_store::contact_views(rows@) =~= by_age(
            rows::kept(s.contacts.take(0), wanted),
        ));
        while index < self.contacts.len()
            invariant
                self.wf(),
                now <= MAX_TIME,
                s == self@,
                wanted == (if outgoing {
                    is_made_request(s, caller@, now as i64)
                } else {
                    is_open_request(caller@, now as i64)
                }),
                index <= self.contacts@.len(),
                relay_store::contact_views(rows@) == by_age(
                    rows::kept(s.contacts.take(index as int), wanted),
                ),
            decreases self.contacts@.len() - index,
        {
            let row = &self.contacts[index];
            assert(s.contacts[index as int] == row@);
            assert(s.contacts.take(index + 1).drop_last() =~= s.contacts.take(index as int));
            assert(s.contacts.take(index + 1).last() == row@);
            let is_wanted = if outgoing {
                same_text(row.sender.as_str(), caller) && row.expires_at >= now as i64
                    && self.allowlist.get(row.recipient.as_str()).is_some()
                    && self.device_with_id(row.recipient.as_str()) < self.devices.len()
            } else {
                same_text(row.recipient.as_str(), caller) && row.status == ContactStatus::Pending
                    && row.expires_at >= now as i64
            };
            assert(is_wanted == wanted(row@));
            if is_wanted {
                let ghost earlier = rows::kept(s.contacts.take(index as int), wanted);
                insert_by_age(&mut rows, copy_row(row));
                assert(earlier.push(row@).drop_last() =~= earlier);
                assert(by_age(earlier.push(row@)) == with_newer(by_age(earlier), row@));
            }
            index += 1;
        }
        assert(s.contacts.take(index as int) =~= s.contacts);
        proof {
            lemma_by_age_members(rows::kept(s.contacts, wanted));
            rows::lemma_kept(s.contacts, wanted);
        }
        let ghost sorted = by_age(rows::kept(s.contacts, wanted));
        let ghost expected = shown_requests(s, caller@, outgoing, now);
        let mut answers: Vec<ContactRequestResponse> = Vec::new();
        let mut position: usize = 0;
        assert(answer_views(answers@) =~= expected.take(0));
        while position < rows.len()
            invariant
                self.wf(),
                s == self@,
                wanted == (if outgoing {
                    is_made_request(s, caller@, now as i64)
                } else {
                    is_open_request(caller@, now as i64)
                }),
                position <= rows@.len(),
                sorted == by_age(rows::kept(s.contacts, wanted)),
                relay_store::contact_views(rows@) == sorted,
                forall|i: int| 0 <= i < sorted.len() ==> wanted(#[trigger] sorted[i]),
                expected == shown_requests(s, caller@, outgoing, now),
                answer_views(answers@) == expected.take(position as int),
            decreases rows@.len() - position,
        {
            let row = &rows[position];
            assert(sorted[position as int] == row@);
            assert(wanted(sorted[position as int]));
            let ghost before = answers@;
            if outgoing {
                let device: usize = self.device_with_id(row.recipient.as_str());
                assert(self@.devices[device as int] == self.devices@[device as int]@);
                if let Some(client) = self.allowlist.get(row.recipient.as_str()) {
                    assert(self@.allowlist[row.recipient@] == client@);
                    answers.push(
                        ContactRequestResponse {
                            request_id: row.request_id.clone(),
                            sender_id: row.recipient.clone(),
                            recipient: row.recipient.clone(),
                            sender_name: self.devices[device].device_address.clone(),
                            sender_fingerprint: client.fingerprint.clone(),
                            bundle: b64(self.devices[device].bundle.as_slice()),
                            status: row.status.text().to_owned(),
                            created_at: #[verifier::truncate]
                            (row.created_at as u64),
                        },
                    );
                }
                assert(answer_views(answers@) =~= answer_views(before).push(
                    outgoing_answer(s, row@),
                ));
            } else {
                answers.push(answer_incoming(row));
                assert(answer_views(answers@) =~= answer_views(before).push(
                    incoming_answer(row@),
                ));
            }
            assert(answer_views(answers@) =~= expected.take(position + 1));
            position += 1;
        }
        assert(expected.take(position as int) =~= expected);
        answers
    }

    /// Accepts a request that a device has received.
    pub fn accept_contact(&mut self, recipient: &str, request_id: &str) -> (result: Result<
        ContactRequestResponse,
        ApiError,
    >)
        requires
            old(self).wf(),
        ensures
            final(self).wf(),
            ({
                let index = rows::first_at(
                    old(self)@.contacts,
                    is_received_request(request_id@, recipient@),
                    0,
                );
                if index >= old(self)@.contacts.len() {
                    &&& result matches Err(error) && error@ == relay_http::is_not_found()
                    &&& final(self)@ == old(self)@
                } else {
                    let row = answered(old(self)@.contacts[index], ContactStatus::Accepted, true);
                    &&& result matches Ok(answer) && answer@ == incoming_answer(row)
                    &&& final(self)@ == (StoreView {
                        contacts: old(self)@.contacts.update(index, row),
                        ..old(self)@
                    })
                }
            }),
            ({
                let step = answer_step(
                    old(self)@,
                    recipient@,
                    request_id@,
                    ContactStatus::Accepted,
                    true,
                );
                &&& final(self)@ == step.0
                &&& if step.1 < old(self)@.contacts.len() {
                    result matches Ok(answer) && answer@ == incoming_answer(
                        step.0.contacts[step.1],
                    )
                } else {
                    result matches Err(error) && error@ == relay_http::is_not_found()
                }
            }),
    {
        let index: usize = self.received_contact(request_id, recipient);
        if index >= self.contacts.len() {
            return Err(not_found());
        }
        let ghost s = self@;
        assert(s.contacts[index as int] == self.contacts@[index as int]@);
        if self.contacts[index].status == ContactStatus::Pending {
            self.contacts[index].status = ContactStatus::Accepted;
        }
        assert(relay_store::contact_views(self.contacts@) =~= s.contacts.update(
            index as int,
            answered(s.contacts[index as int], ContactStatus::Accepted, true),
        ));
        assert(self.contacts@[index as int]@ == relay_store::contact_views(
            self.contacts@,
        )[index as int]);
        Ok(answer_incoming(&self.contacts[index]))
    }

    /// Rejects a request that a device has received, answered or not.
    pub fn reject_contact(&mut self, recipient: &str, request_id: &str)
        requires
            old(self).wf(),
        ensures
            final(self).wf(),
            ({
                let index = rows::first_at(
                    old(self)@.contacts,
                    is_received_request(request_id@, recipient@),
                    0,
                );
                final(self)@ == (if index >= old(self)@.contacts.len() {
                    old(self)@
                } else {
                    StoreView {
                        contacts: old(self)@.contacts.update(
                            index,
                            answered(old(self)@.contacts[index], ContactStatus::Rejected, false),
                        ),
                        ..old(self)@
                    }
                })
            }),
            final(self)@ == answer_step(
                old(self)@,
                recipient@,
                request_id@,
                ContactStatus::Rejected,
                false,
            ).0,
    {
        let index: usize = self.received_contact(request_id, recipient);
        if index < self.contacts.len() {
            let ghost s = self@;
            assert(s.contacts[index as int] == self.contacts@[index as int]@);
            self.contacts[index].status = ContactStatus::Rejected;
            assert(relay_store::contact_views(self.contacts@) =~= s.contacts.update(
                index as int,
                answered(s.contacts[index as int], ContactStatus::Rejected, false),
            ));
        }
    }
}

/// A request once it was answered, or left alone where only an open one may be.
pub open spec fn answered(row: ContactView, status: ContactStatus, open_only: bool) -> ContactView {
    if open_only && row.status != ContactStatus::Pending {
        row
    } else {
        ContactView { status, ..row }
    }
}

proof fn lemma_with_newer_members(rows: Seq<ContactView>, row: ContactView)
    ensures
        with_newer(rows, row).len() == rows.len() + 1,
        forall|i: int|
            0 <= i < with_newer(rows, row).len() ==> rows.contains(
                #[trigger] with_newer(rows, row)[i],
            ) || with_newer(rows, row)[i] == row,
    decreases rows.len(),
{
    if rows.len() > 0 && rows.last().created_at > row.created_at {
        let front = rows.drop_last();
        lemma_with_newer_members(front, row);
        let all = with_newer(rows, row);
        assert forall|i: int| 0 <= i < all.len() implies rows.contains(#[trigger] all[i]) || all[i]
            == row by {
            if i < all.len() - 1 {
                assert(all[i] == with_newer(front, row)[i]);
                if front.contains(all[i]) {
                    let j = choose|j: int| 0 <= j < front.len() && front[j] == all[i];
                    assert(rows[j] == all[i]);
                }
            } else {
                assert(all[i] == rows[rows.len() - 1]);
            }
        }
    } else {
        let all = rows.push(row);
        assert forall|i: int| 0 <= i < all.len() implies rows.contains(#[trigger] all[i]) || all[i]
            == row by {
            if i < rows.len() {
                assert(all[i] == rows[i]);
            }
        }
    }
}

proof fn lemma_by_age_members(rows: Seq<ContactView>)
    ensures
        by_age(rows).len() == rows.len(),
        forall|i: int|
            0 <= i < by_age(rows).len() ==> rows.contains(#[trigger] by_age(rows)[i]),
    decreases rows.len(),
{
    if rows.len() > 0 {
        let front = rows.drop_last();
        lemma_by_age_members(front);
        lemma_with_newer_members(by_age(front), rows.last());
        let all = by_age(rows);
        assert forall|i: int| 0 <= i < all.len() implies rows.contains(#[trigger] all[i]) by {
            if all[i] == rows.last() {
                assert(rows[rows.len() - 1] == all[i]);
            } else {
                assert(by_age(front).contains(all[i]));
                let j = choose|j: int| 0 <= j < by_age(front).len() && by_age(front)[j] == all[i];
                assert(front.contains(by_age(front)[j]));
                let k = choose|k: int| 0 <= k < front.len() && front[k] == all[i];
                assert(rows[k] == all[i]);
            }
        }
    }
}

/// Only the recipient of a request can answer it: to any other device it is not
/// there.
pub proof fn law_only_recipients_answer(contacts: Seq<ContactView>, request_id: Seq<char>, device: Seq<char>)
    ensures
        ({
            let index = rows::first_at(
                contacts,
                is_received_request(request_id, device),
                0,
            );
            index < contacts.len() ==> contacts[index].recipient == device
                && contacts[index].request_id == request_id
        }),
{
    rows::lemma_first_at(contacts, is_received_request(request_id, device), 0);
}

/// A request that was rejected is not accepted later.
pub proof fn law_rejection_stands(row: ContactView)
    ensures
        answered(answered(row, ContactStatus::Rejected, false), ContactStatus::Accepted, true).status
            == ContactStatus::Rejected,
{
}

/// Whether a device asks for the requests that it has made, or what is refused.
pub open spec fn listed_direction(
    accept: relay_http::HeaderView,
    direction: Option<Seq<char>>,
) -> Result<bool, Seq<char>> {
    match relay_http::json_accept(accept) {
        Err(message) => Err(message),
        Ok(_) => match direction {
            None => Ok(false),
            Some(value) => if value == "outgoing"@ {
                Ok(true)
            } else {
                Err("invalid contact direction"@)
            },
        },
    }
}

/// Whether a device asks for the requests that it has made.
pub fn check_list_request(headers: &RequestHeaders, direction: Option<&str>) -> (result: Result<
    bool,
    ApiError,
>)
    ensures
        match listed_direction(
            headers.accept@,
            match direction {
                Some(value) => Some(value@),
                None => None,
            },
        ) {
            Ok(outgoing) => result matches Ok(found) && found == outgoing,
            Err(message) => result matches Err(error) && error@ == relay_http::is_bad_request(
                message,
            ),
        },
{
    if let Err(message) = validate_json_accept(headers) {
        return Err(bad_request(message));
    }
    match direction {
        None => Ok(false),
        Some(value) => {
            if same_text(value, "outgoing") {
                Ok(true)
            } else {
                Err(bad_request("invalid contact direction".to_owned()))
            }
        },
    }
}

/// What is refused of an answer to a request for contact.
pub open spec fn answer_check(headers: RequestHeaders, request_id: Seq<char>) -> Result<
    (),
    Seq<char>,
> {
    match relay_http::optional_json_content(headers.content_type@) {
        Err(message) => Err(message),
        Ok(_) => match relay_http::json_accept(headers.accept@) {
            Err(message) => Err(message),
            Ok(_) => relay_http::text_within(request_id, MAX_ID_BYTES, "request ID"@),
        },
    }
}

/// Checks an answer to a request for contact.
pub fn check_answer_request(headers: &RequestHeaders, request_id: &str) -> (result: Result<
    (),
    ApiError,
>)
    ensures
        match answer_check(*headers, request_id@) {
            Ok(_) => result is Ok,
            Err(message) => result matches Err(error) && error@ == relay_http::is_bad_request(
                message,
            ),
        },
{
    if let Err(message) = validate_optional_json_content(headers) {
        return Err(bad_request(message));
    }
    if let Err(message) = validate_json_accept(headers) {
        return Err(bad_request(message));
    }
    check_text(request_id, MAX_ID_BYTES, "request ID")
}

// ---------------------------------------------------------------------------
// Bundles
// ---------------------------------------------------------------------------

/// A bundle, as the relay answers it.
#[derive(Clone, Debug, PartialEq, Eq)]
pub struct BundleResponse {
    pub device_id: String,
    pub bundle: String,
}

/// The store with the bundle that a device publishes.
pub open spec fn published(s: StoreView, device: Seq<char>, bundle: Seq<u8>, now: u64) -> StoreView {
    let index = rows::first_at(s.devices, relay_store::has_id(device), 0);
    if index < s.devices.len() {
        StoreView {
            devices: s.devices.update(index, with_bundle(s.devices[index], bundle, now)),
            ..s
        }
    } else {
        s
    }
}

/// The ID of the device that a name stands for, and its bundle as it is handed out.
pub open spec fn bundle_called(s: StoreView, name: Seq<char>) -> Option<(Seq<char>, Seq<char>)> {
    let index = rows::first_at(s.devices, relay_store::is_called(name), 0);
    if index < s.devices.len() {
        Some((s.devices[index].client_id, primitives::base64_url(s.devices[index].bundle)))
    } else {
        None
    }
}

/// The ID of the device that has an address, and its bundle as it is handed out.
pub open spec fn bundle_at(s: StoreView, address: Seq<char>) -> Option<(Seq<char>, Seq<char>)> {
    let index = rows::first_at(s.devices, relay_store::has_address(address), 0);
    if index < s.devices.len() {
        Some((s.devices[index].client_id, primitives::base64_url(s.devices[index].bundle)))
    } else {
        None
    }
}

/// A device with another bundle.
pub open spec fn with_bundle(device: DeviceView, bundle: Seq<u8>, now: u64) -> DeviceView {
    DeviceView { bundle, last_seen_at: now as i64, ..device }
}

impl RelayStore {
    /// Publishes a bundle of a device.
    pub fn publish_bundle(&mut self, device: &str, encoded: String, now: u64) -> (result: Result<
        BundleResponse,
        ApiError,
    >)
        requires
            old(self).wf(),
            now <= MAX_TIME,
        ensures
            final(self).wf(),
            match relay_enrollment::bundle_in(encoded@) {
                Err(message) => {
                    &&& result matches Err(error) && error@ == relay_http::is_bad_request(message)
                    &&& final(self)@ == old(self)@
                },
                Ok(bundle) => {
                    let index = rows::first_at(
                        old(self)@.devices,
                        relay_store::has_id(device@),
                        0,
                    );
                    &&& result matches Ok(answer) && answer.device_id@ == device@ && answer.bundle@
                        == encoded@
                    &&& final(self)@ == (if index < old(self)@.devices.len() {
                        StoreView {
                            devices: old(self)@.devices.update(
                                index,
                                with_bundle(old(self)@.devices[index], bundle, now),
                            ),
                            ..old(self)@
                        }
                    } else {
                        old(self)@
                    })
                },
            },
            relay_enrollment::bundle_in(encoded@) matches Ok(bundle) ==> final(self)@ == published(
                old(self)@,
                device@,
                bundle,
                now,
            ),
    {
        let bundle = check_bundle(encoded.as_str())?;
        let index: usize = self.device_with_id(device);
        if index < self.devices.len() {
            let ghost s = self@;
            let ghost held = bundle@;
            assert(s.devices[index as int] == self.devices@[index as int]@);
            self.devices[index].bundle = bundle;
            self.devices[index].last_seen_at = now as i64;
            assert(relay_store::device_views(self.devices@) =~= s.devices.update(
                index as int,
                with_bundle(s.devices[index as int], held, now),
            ));
        }
        Ok(BundleResponse { device_id: device.to_owned(), bundle: encoded })
    }

    /// The bundle of the device with an ID or an address.
    pub fn fetch_bundle(&self, device: &str) -> (result: Result<BundleResponse, ApiError>)
        ensures
            ({
                let index = rows::first_at(
                    self@.devices,
                    relay_store::is_called(device@),
                    0,
                );
                if index >= self@.devices.len() {
                    result matches Err(error) && error@ == relay_http::is_not_found()
                } else {
                    result matches Ok(answer) && answer.device_id@ == self@.devices[index].client_id
                        && answer.bundle@ == primitives::base64_url(self@.devices[index].bundle)
                }
            }),
            match bundle_called(self@, device@) {
                Some(held) => result matches Ok(answer) && answer.device_id@ == held.0
                    && answer.bundle@ == held.1,
                None => result matches Err(error) && error@ == relay_http::is_not_found(),
            },
    {
        let index: usize = self.device_called(device);
        if index >= self.devices.len() {
            return Err(not_found());
        }
        assert(self@.devices[index as int] == self.devices@[index as int]@);
        Ok(
            BundleResponse {
                device_id: self.devices[index].client_id.clone(),
                bundle: b64(self.devices[index].bundle.as_slice()),
            },
        )
    }

    /// The bundle of the device with an address.
    pub fn fetch_bundle_by_address(&self, address: &str) -> (result: Result<
        BundleResponse,
        ApiError,
    >)
        ensures
            ({
                let index = rows::first_at(
                    self@.devices,
                    relay_store::has_address(address@),
                    0,
                );
                if index >= self@.devices.len() {
                    result matches Err(error) && error@ == relay_http::is_not_found()
                } else {
                    result matches Ok(answer) && answer.device_id@ == self@.devices[index].client_id
                        && answer.bundle@ == primitives::base64_url(self@.devices[index].bundle)
                }
            }),
            match bundle_at(self@, address@) {
                Some(held) => result matches Ok(answer) && answer.device_id@ == held.0
                    && answer.bundle@ == held.1,
                None => result matches Err(error) && error@ == relay_http::is_not_found(),
            },
    {
        let index: usize = self.device_with_address(address);
        if index >= self.devices.len() {
            return Err(not_found());
        }
        assert(self@.devices[index as int] == self.devices@[index as int]@);
        Ok(
            BundleResponse {
                device_id: self.devices[index].client_id.clone(),
                bundle: b64(self.devices[index].bundle.as_slice()),
            },
        )
    }
}

/// What is refused of a request for a bundle.
pub open spec fn bundle_check(accept: relay_http::HeaderView, name: Seq<char>, field: Seq<char>) -> Result<
    (),
    Seq<char>,
> {
    match relay_http::json_accept(accept) {
        Err(message) => Err(message),
        Ok(_) => relay_http::text_within(name, MAX_ID_BYTES, field),
    }
}

/// Checks a request for a bundle.
pub fn check_bundle_request(headers: &RequestHeaders, name: &str, field: &str) -> (result: Result<
    (),
    ApiError,
>)
    ensures
        match bundle_check(headers.accept@, name@, field@) {
            Ok(_) => result is Ok,
            Err(message) => result matches Err(error) && error@ == relay_http::is_bad_request(
                message,
            ),
        },
{
    if let Err(message) = validate_json_accept(headers) {
        return Err(bad_request(message));
    }
    check_text(name, MAX_ID_BYTES, field)
}

// ---------------------------------------------------------------------------
// What is listed, answered and served, row by row
// ---------------------------------------------------------------------------

/// Whether a device is the first with an ID.
pub open spec fn first_with_id(devices: Seq<DeviceView>, client_id: Seq<char>, index: int) -> bool {
    &&& 0 <= index < devices.len()
    &&& devices[index].client_id == client_id
    &&& forall|i: int| 0 <= i < index ==> (#[trigger] devices[i]).client_id != client_id
}

proof fn lemma_first_with_id(devices: Seq<DeviceView>, client_id: Seq<char>)
    ensures
        ({
            let index = rows::first_at(devices, relay_store::has_id(client_id), 0);
            &&& 0 <= index <= devices.len()
            &&& index < devices.len() ==> first_with_id(devices, client_id, index)
            &&& index == devices.len() ==> forall|i: int|
                0 <= i < devices.len() ==> (#[trigger] devices[i]).client_id != client_id
        }),
{
    let wanted = relay_store::has_id(client_id);
    let index = rows::first_at(devices, wanted, 0);
    rows::lemma_first_at(devices, wanted, 0);
    assert forall|i: int| 0 <= i < index implies (#[trigger] devices[i]).client_id != client_id by {
        assert(!wanted(devices[i]));
    }
}

/// Whether positions are all of some rows, each once, oldest first and those of one age
/// in the order in which they stand.
pub open spec fn in_order_of_age(rows: Seq<ContactView>, at: Seq<int>) -> bool {
    &&& forall|i: int| 0 <= i < at.len() ==> 0 <= #[trigger] at[i] < rows.len()
    &&& forall|i: int, j: int|
        0 <= i < j < at.len() ==> {
            ||| rows[#[trigger] at[i]].created_at < rows[#[trigger] at[j]].created_at
            ||| rows[at[i]].created_at == rows[at[j]].created_at && at[i] < at[j]
        }
}

proof fn lemma_with_newer(rows: Seq<ContactView>, row: ContactView) -> (place: int)
    ensures
        0 <= place <= rows.len(),
        with_newer(rows, row) == rows.take(place).push(row) + rows.skip(place),
        place > 0 ==> rows[place - 1].created_at <= row.created_at,
        forall|i: int| place <= i < rows.len() ==> (#[trigger] rows[i]).created_at > row.created_at,
    decreases rows.len(),
{
    if rows.len() > 0 && rows.last().created_at > row.created_at {
        let front = rows.drop_last();
        let place = lemma_with_newer(front, row);
        assert forall|i: int| place <= i < rows.len() implies (#[trigger] rows[i]).created_at
            > row.created_at by {
            if i < rows.len() - 1 {
                assert(front[i] == rows[i]);
            }
        }
        if place > 0 {
            assert(front[place - 1] == rows[place - 1]);
        }
        assert(with_newer(rows, row) =~= rows.take(place).push(row) + rows.skip(place));
        place
    } else {
        assert(with_newer(rows, row) =~= rows.take(rows.len() as int).push(row) + rows.skip(
            rows.len() as int,
        ));
        rows.len() as int
    }
}

/// Ordering rows by age keeps every row once.
pub proof fn law_ordering_keeps_every_row(rows: Seq<ContactView>) -> (at: Seq<int>)
    ensures
        in_order_of_age(rows, at),
        at.len() == rows.len(),
        by_age(rows).len() == rows.len(),
        forall|k: int| 0 <= k < at.len() ==> by_age(rows)[k] == rows[#[trigger] at[k]],
        forall|j: int| 0 <= j < rows.len() ==> #[trigger] at.contains(j),
    decreases rows.len(),
{
    if rows.len() == 0 {
        Seq::empty()
    } else {
        let front = rows.drop_last();
        let last = rows.len() - 1;
        let earlier = law_ordering_keeps_every_row(front);
        let sorted = by_age(front);
        let place = lemma_with_newer(sorted, rows.last());
        let at = earlier.take(place).push(last) + earlier.skip(place);
        let all = by_age(rows);
        assert(at.len() == rows.len());
        assert forall|k: int| 0 <= k < at.len() implies all[k] == rows[#[trigger] at[k]] && 0
            <= at[k] < rows.len() by {
            if k < place {
                assert(at[k] == earlier[k]);
                assert(sorted[k] == front[earlier[k]]);
            } else if k > place {
                assert(at[k] == earlier[k - 1]);
                assert(sorted[k - 1] == front[earlier[k - 1]]);
            }
        }
        assert forall|j: int| 0 <= j < rows.len() implies #[trigger] at.contains(j) by {
            if j < last {
                assert(earlier.contains(j));
                let k = choose|k: int| 0 <= k < earlier.len() && earlier[k] == j;
                if k < place {
                    assert(at[k] == j);
                } else {
                    assert(at[k + 1] == j);
                }
            } else {
                assert(at[place] == last);
            }
        }
        assert forall|i: int, j: int| 0 <= i < j < at.len() implies {
            ||| rows[#[trigger] at[i]].created_at < rows[#[trigger] at[j]].created_at
            ||| rows[at[i]].created_at == rows[at[j]].created_at && at[i] < at[j]
        } by {
            lemma_ordered(rows, earlier, at, place, i, j);
        }
        at
    }
}

proof fn lemma_ordered(
    rows: Seq<ContactView>,
    earlier: Seq<int>,
    at: Seq<int>,
    place: int,
    i: int,
    j: int,
)
    requires
        rows.len() > 0,
        in_order_of_age(rows.drop_last(), earlier),
        earlier.len() == rows.len() - 1,
        0 <= place <= earlier.len(),
        at == earlier.take(place).push(rows.len() - 1) + earlier.skip(place),
        place > 0 ==> rows[earlier[place - 1]].created_at <= rows.last().created_at,
        forall|k: int|
            place <= k < earlier.len() ==> rows[#[trigger] earlier[k]].created_at
                > rows.last().created_at,
        0 <= i < j < at.len(),
    ensures
        rows[at[i]].created_at < rows[at[j]].created_at || (rows[at[i]].created_at
            == rows[at[j]].created_at && at[i] < at[j]),
{
    let front = rows.drop_last();
    let last = rows.len() - 1;
    assert forall|k: int| 0 <= k < earlier.len() implies 0 <= #[trigger] earlier[k] < last
        && front[earlier[k]] == rows[earlier[k]] by {}
    let a = if i < place {
        i
    } else {
        i - 1
    };
    let b = if j < place {
        j
    } else {
        j - 1
    };
    if i == place {
        assert(at[i] == last);
        assert(at[j] == earlier[b]);
    } else if j == place {
        assert(at[j] == last);
        assert(at[i] == earlier[a]);
        if a < place - 1 {
            assert(front[earlier[a]].created_at <= front[earlier[place - 1]].created_at);
        }
    } else {
        assert(at[i] == earlier[a]);
        assert(at[j] == earlier[b]);
        assert(a < b);
    }
}

/// Whether an answer shows a request to the device that it was made to: with the ID,
/// the name, the fingerprint and the bundle of the device that made it.
pub open spec fn shows_incoming(row: ContactView, answer: ContactAnswerView) -> bool {
    &&& answer.request_id == row.request_id
    &&& answer.sender_id == row.sender
    &&& answer.recipient == row.recipient
    &&& answer.sender_name == row.sender_name
    &&& answer.sender_fingerprint == row.sender_fingerprint
    &&& primitives::base64_bytes(answer.bundle) == Some(row.bundle)
    &&& row.status == ContactStatus::Pending <==> answer.status == "pending"@
    &&& row.status == ContactStatus::Accepted <==> answer.status == "accepted"@
    &&& row.status == ContactStatus::Rejected <==> answer.status == "rejected"@
    &&& row.created_at >= 0 ==> answer.created_at == row.created_at
}

/// Whether an answer shows a request to the device that made it: with the ID, the
/// address, the fingerprint and the bundle of the device that it was made to, and with
/// what that device answered.
pub open spec fn shows_outgoing(s: StoreView, row: ContactView, answer: ContactAnswerView) -> bool {
    &&& answer.request_id == row.request_id
    &&& answer.sender_id == row.recipient
    &&& answer.recipient == row.recipient
    &&& s.allowlist.contains_key(row.recipient)
    &&& answer.sender_fingerprint == s.allowlist[row.recipient].fingerprint
    &&& exists|i: int| #[trigger]
        first_with_id(s.devices, row.recipient, i) && answer.sender_name
            == s.devices[i].device_address && primitives::base64_bytes(answer.bundle) == Some(
            s.devices[i].bundle,
        )
    &&& row.status == ContactStatus::Pending <==> answer.status == "pending"@
    &&& row.status == ContactStatus::Accepted <==> answer.status == "accepted"@
    &&& row.status == ContactStatus::Rejected <==> answer.status == "rejected"@
    &&& row.created_at >= 0 ==> answer.created_at == row.created_at
}

proof fn lemma_answer_texts(status: ContactStatus, created_at: i64, bundle: Seq<u8>)
    ensures
        status == ContactStatus::Pending <==> status_name(status) == "pending"@,
        status == ContactStatus::Accepted <==> status_name(status) == "accepted"@,
        status == ContactStatus::Rejected <==> status_name(status) == "rejected"@,
        created_at >= 0 ==> relay_mailbox::unsigned(created_at) == created_at,
        primitives::base64_bytes(primitives::base64_url(bundle)) == Some(bundle),
{
    reveal_strlit("pending");
    reveal_strlit("accepted");
    reveal_strlit("rejected");
    assert("pending"@.len() == 7 && "accepted"@.len() == 8 && "rejected"@.len() == 8);
    assert("accepted"@[0] != "rejected"@[0]);
    primitives::law_base64_round_trip(bundle);
    if created_at >= 0 {
        assert(created_at as u64 == created_at) by (bit_vector)
            requires
                created_at >= 0,
        ;
    }
}

/// A device is listed the open requests that were made to it and that have not run out,
/// all of them and no others, oldest first, each with the name, fingerprint and bundle
/// of the device that made it.
pub proof fn law_incoming_requests_are_listed(s: StoreView, caller: Seq<char>, now: u64) -> (at: Seq<
    int,
>)
    requires
        now <= MAX_TIME,
    ensures
        in_order_of_age(s.contacts, at),
        shown_requests(s, caller, false, now).len() == at.len(),
        forall|k: int|
            0 <= k < at.len() ==> {
                let row = s.contacts[#[trigger] at[k]];
                &&& row.recipient == caller
                &&& row.status == ContactStatus::Pending
                &&& row.expires_at >= now
                &&& shows_incoming(row, shown_requests(s, caller, false, now)[k])
            },
        forall|j: int|
            0 <= j < s.contacts.len() && (#[trigger] s.contacts[j]).recipient == caller
                && s.contacts[j].status == ContactStatus::Pending && s.contacts[j].expires_at >= now
                ==> at.contains(j),
{
    let wanted = is_open_request(caller, now as i64);
    let at = lemma_listed(s.contacts, wanted);
    let rows = by_age(rows::kept(s.contacts, wanted));
    let shown = shown_requests(s, caller, false, now);
    assert forall|k: int| 0 <= k < at.len() implies {
        let row = s.contacts[#[trigger] at[k]];
        &&& row.recipient == caller
        &&& row.status == ContactStatus::Pending
        &&& row.expires_at >= now
        &&& shows_incoming(row, shown[k])
    } by {
        let row = s.contacts[at[k]];
        assert(wanted(row));
        assert(rows[k] == row);
        assert(shown[k] == incoming_answer(row));
        lemma_answer_texts(row.status, row.created_at, row.bundle);
    }
    assert forall|j: int|
        0 <= j < s.contacts.len() && (#[trigger] s.contacts[j]).recipient == caller
            && s.contacts[j].status == ContactStatus::Pending && s.contacts[j].expires_at
            >= now implies at.contains(j) by {
        assert(wanted(s.contacts[j]));
    }
    at
}

proof fn lemma_listed(contacts: Seq<ContactView>, wanted: spec_fn(ContactView) -> bool) -> (at: Seq<
    int,
>)
    ensures
        in_order_of_age(contacts, at),
        at.len() == by_age(rows::kept(contacts, wanted)).len(),
        forall|k: int|
            0 <= k < at.len() ==> wanted(contacts[#[trigger] at[k]]) && by_age(
                rows::kept(contacts, wanted),
            )[k] == contacts[at[k]],
        forall|j: int| 0 <= j < contacts.len() && wanted(#[trigger] contacts[j]) ==> at.contains(j),
{
    let left = rows::kept(contacts, wanted);
    let places = rows::lemma_kept_positions(contacts, wanted);
    let order = law_ordering_keeps_every_row(left);
    let at = Seq::new(order.len(), |k: int| places[order[k]]);
    assert forall|k: int| 0 <= k < at.len() implies wanted(contacts[#[trigger] at[k]]) && by_age(
        left,
    )[k] == contacts[at[k]] && 0 <= at[k] < contacts.len() by {
        let place = order[k];
        assert(0 <= place < left.len());
        assert(left[place] == contacts[places[place]]);
    }
    assert forall|i: int, j: int| 0 <= i < j < at.len() implies {
        ||| contacts[#[trigger] at[i]].created_at < contacts[#[trigger] at[j]].created_at
        ||| contacts[at[i]].created_at == contacts[at[j]].created_at && at[i] < at[j]
    } by {
        assert(left[order[i]] == contacts[places[order[i]]]);
        assert(left[order[j]] == contacts[places[order[j]]]);
        if order[i] < order[j] {
            assert(places[order[i]] < places[order[j]]);
        }
    }
    assert forall|j: int| 0 <= j < contacts.len() && wanted(#[trigger] contacts[j]) implies at.contains(
        j,
    ) by {
        assert(places.contains(j));
        let place = choose|place: int| 0 <= place < places.len() && places[place] == j;
        assert(order.contains(place));
        let k = choose|k: int| 0 <= k < order.len() && order[k] == place;
        assert(at[k] == j);
    }
    at
}

/// A device is listed the requests that it made and that have not run out, as far as
/// their recipients are there, all of them and no others, oldest first. Each carries
/// the address, the fingerprint and the bundle of the recipient, and its answer.
pub proof fn law_outgoing_requests_are_listed(s: StoreView, caller: Seq<char>, now: u64) -> (at: Seq<
    int,
>)
    requires
        now <= MAX_TIME,
    ensures
        in_order_of_age(s.contacts, at),
        shown_requests(s, caller, true, now).len() == at.len(),
        forall|k: int|
            0 <= k < at.len() ==> {
                let row = s.contacts[#[trigger] at[k]];
                &&& row.sender == caller
                &&& row.expires_at >= now
                &&& shows_outgoing(s, row, shown_requests(s, caller, true, now)[k])
            },
        forall|j: int, device: int|
            0 <= j < s.contacts.len() && (#[trigger] s.contacts[j]).sender == caller
                && s.contacts[j].expires_at >= now && s.allowlist.contains_key(
                s.contacts[j].recipient,
            ) && 0 <= device < s.devices.len() && (#[trigger] s.devices[device]).client_id
                == s.contacts[j].recipient ==> at.contains(j),
{
    let wanted = is_made_request(s, caller, now as i64);
    let at = lemma_listed(s.contacts, wanted);
    let rows = by_age(rows::kept(s.contacts, wanted));
    let shown = shown_requests(s, caller, true, now);
    assert forall|k: int| 0 <= k < at.len() implies {
        let row = s.contacts[#[trigger] at[k]];
        &&& row.sender == caller
        &&& row.expires_at >= now
        &&& shows_outgoing(s, row, shown[k])
    } by {
        let row = s.contacts[at[k]];
        assert(wanted(row));
        assert(rows[k] == row);
        assert(shown[k] == outgoing_answer(s, row));
        lemma_first_with_id(s.devices, row.recipient);
        let index = rows::first_at(s.devices, relay_store::has_id(row.recipient), 0);
        assert(first_with_id(s.devices, row.recipient, index));
        lemma_answer_texts(row.status, row.created_at, s.devices[index].bundle);
    }
    assert forall|j: int, device: int|
        0 <= j < s.contacts.len() && (#[trigger] s.contacts[j]).sender == caller
            && s.contacts[j].expires_at >= now && s.allowlist.contains_key(s.contacts[j].recipient)
            && 0 <= device < s.devices.len() && (#[trigger] s.devices[device]).client_id
            == s.contacts[j].recipient implies at.contains(j) by {
        lemma_first_with_id(s.devices, s.contacts[j].recipient);
        assert(wanted(s.contacts[j]));
    }
    at
}

/// The bundle in an answer that shows a request to the device that made it is the one
/// that the relay serves under the ID of the recipient, unless another device has that
/// ID for its address.
pub proof fn law_listed_bundle_is_the_served_one(
    s: StoreView,
    row: ContactView,
    answer: ContactAnswerView,
)
    requires
        shows_outgoing(s, row, answer),
        forall|i: int|
            0 <= i < s.devices.len() ==> (#[trigger] s.devices[i]).device_address != row.recipient,
    ensures
        bundle_called(s, answer.sender_id) is Some,
        (bundle_called(s, answer.sender_id)->0).0 == row.recipient,
        primitives::base64_bytes((bundle_called(s, answer.sender_id)->0).1)
            == primitives::base64_bytes(answer.bundle),
{
    let i = choose|i: int| #[trigger]
        first_with_id(s.devices, row.recipient, i) && answer.sender_name
            == s.devices[i].device_address && primitives::base64_bytes(answer.bundle) == Some(
            s.devices[i].bundle,
        );
    rows::lemma_first_is(s.devices, relay_store::is_called(row.recipient), i);
    primitives::law_base64_round_trip(s.devices[i].bundle);
}

/// A name is answered with the first device that has it for its ID or its address, and
/// an address with the first device that has it. The bundle is that device's own. Where
/// there is no such device nothing is answered.
pub proof fn law_served_bundle_is_the_devices_own(s: StoreView, name: Seq<char>, index: int)
    ensures
        relay_mailbox::first_called(s.devices, name, index) ==> {
            &&& bundle_called(s, name) matches Some(held)
            &&& held.0 == s.devices[index].client_id
            &&& primitives::base64_bytes(held.1) == Some(s.devices[index].bundle)
        },
        (forall|i: int|
            0 <= i < s.devices.len() ==> (#[trigger] s.devices[i]).client_id != name
                && s.devices[i].device_address != name) ==> bundle_called(s, name) is None,
        0 <= index < s.devices.len() && s.devices[index].device_address == name && (forall|i: int|
            0 <= i < index ==> (#[trigger] s.devices[i]).device_address != name) ==> {
            &&& bundle_at(s, name) matches Some(held)
            &&& held.0 == s.devices[index].client_id
            &&& primitives::base64_bytes(held.1) == Some(s.devices[index].bundle)
        },
        (forall|i: int|
            0 <= i < s.devices.len() ==> (#[trigger] s.devices[i]).device_address != name)
            ==> bundle_at(s, name) is None,
{
    if 0 <= index < s.devices.len() {
        primitives::law_base64_round_trip(s.devices[index].bundle);
    }
    if relay_mailbox::first_called(s.devices, name, index) {
        rows::lemma_first_is(s.devices, relay_store::is_called(name), index);
    }
    if forall|i: int|
        0 <= i < s.devices.len() ==> (#[trigger] s.devices[i]).client_id != name
            && s.devices[i].device_address != name {
        rows::lemma_first_is(s.devices, relay_store::is_called(name), s.devices.len() as int);
    }
    if 0 <= index < s.devices.len() && s.devices[index].device_address == name && (forall|i: int|
        0 <= i < index ==> (#[trigger] s.devices[i]).device_address != name) {
        rows::lemma_first_is(s.devices, relay_store::has_address(name), index);
    }
    if forall|i: int|
        0 <= i < s.devices.len() ==> (#[trigger] s.devices[i]).device_address != name {
        rows::lemma_first_is(s.devices, relay_store::has_address(name), s.devices.len() as int);
    }
}

/// A bundle that a device publishes is the one that is served under its address from
/// then on. No other device, and nothing else of the store, changes.
pub proof fn law_published_bundle_is_served(
    s: StoreView,
    device: Seq<char>,
    bundle: Seq<u8>,
    now: u64,
    index: int,
)
    requires
        now <= MAX_TIME,
        first_with_id(s.devices, device, index),
    ensures
        ({
            let after = published(s, device, bundle, now);
            &&& after.devices.len() == s.devices.len()
            &&& after.devices[index].bundle == bundle
            &&& after.devices[index].last_seen_at == now
            &&& after.devices[index].client_id == s.devices[index].client_id
            &&& after.devices[index].identity_key == s.devices[index].identity_key
            &&& after.devices[index].device_address == s.devices[index].device_address
            &&& after.devices[index].token_hash == s.devices[index].token_hash
            &&& forall|i: int|
                0 <= i < s.devices.len() && i != index ==> #[trigger] after.devices[i]
                    == s.devices[i]
            &&& after == (StoreView { devices: after.devices, ..s })
            &&& relay_mailbox::first_called(s.devices, device, index) ==> {
                &&& bundle_called(after, device) matches Some(held)
                &&& held.0 == device
                &&& primitives::base64_bytes(held.1) == Some(bundle)
            }
        }),
{
    rows::lemma_first_is(s.devices, relay_store::has_id(device), index);
    let after = published(s, device, bundle, now);
    if relay_mailbox::first_called(s.devices, device, index) {
        assert(relay_mailbox::first_called(after.devices, device, index));
        law_served_bundle_is_the_devices_own(after, device, index);
    }
}

/// A request for contact to a device that is there is kept behind all others, with the
/// caller as its sender, everything that it says and the bundle in it, open for a day.
/// Where its ID is taken nothing changes. It is refused where one of its texts does not
/// fit or its recipient is not there, and nothing changes then either.
pub proof fn law_contact_request_is_kept_once(
    s: StoreView,
    sender: Seq<char>,
    request: ContactRequestPayload,
    now: u64,
    device: int,
)
    requires
        now <= MAX_TIME,
    ensures
        ({
            let (after, answer) = create_step(s, sender, request, now);
            let taken = exists|i: int|
                0 <= i < s.contacts.len() && (#[trigger] s.contacts[i]).request_id
                    == request.request_id@;
            let last = s.contacts.len() as int;
            &&& after == (StoreView { contacts: after.contacts, ..s })
            &&& answer is Err || taken ==> after == s
            &&& (forall|i: int|
                0 <= i < s.devices.len() ==> (#[trigger] s.devices[i]).client_id
                    != request.recipient@) ==> answer is Err
            &&& 0 <= device < s.devices.len() && s.devices[device].client_id == request.recipient@
                && contact_check(request) is Ok ==> answer is Ok
            &&& answer is Ok && !taken ==> {
                &&& after.contacts.len() == last + 1
                &&& forall|i: int| 0 <= i < last ==> #[trigger] after.contacts[i] == s.contacts[i]
                &&& after.contacts[last].request_id == request.request_id@
                &&& after.contacts[last].sender == sender
                &&& after.contacts[last].recipient == request.recipient@
                &&& after.contacts[last].sender_name == request.sender_name@
                &&& after.contacts[last].sender_fingerprint == request.sender_fingerprint@
                &&& Some(after.contacts[last].bundle) == primitives::base64_bytes(request.bundle@)
                &&& after.contacts[last].status == ContactStatus::Pending
                &&& after.contacts[last].created_at == now
                &&& after.contacts[last].expires_at == now + 86_400
            }
            &&& answer matches Ok(shown) ==> {
                &&& shown.request_id == request.request_id@
                &&& shown.sender_id == sender
                &&& shown.recipient == request.recipient@
                &&& shown.sender_name == request.sender_name@
                &&& shown.sender_fingerprint == request.sender_fingerprint@
                &&& shown.bundle == request.bundle@
                &&& shown.status == "pending"@
                &&& shown.created_at == now
            }
        }),
{
    lemma_first_with_id(s.devices, request.recipient@);
    let wanted = is_request(request.request_id@);
    let index = rows::first_at(s.contacts, wanted, 0);
    rows::lemma_first_at(s.contacts, wanted, 0);
    let taken = exists|i: int|
        0 <= i < s.contacts.len() && (#[trigger] s.contacts[i]).request_id == request.request_id@;
    if taken {
        let i = choose|i: int|
            0 <= i < s.contacts.len() && (#[trigger] s.contacts[i]).request_id
                == request.request_id@;
        assert(wanted(s.contacts[i]));
        assert(index < s.contacts.len());
    } else if index < s.contacts.len() {
        assert(wanted(s.contacts[index]));
    }
}

/// An answer is taken for the first request with that ID that was made to the device
/// that answers, and touches no other. An acceptance changes an open request only; a
/// rejection changes any. Where there is no such request nothing changes.
pub proof fn law_answer_touches_one_request(
    s: StoreView,
    recipient: Seq<char>,
    request_id: Seq<char>,
    index: int,
)
    ensures
        0 <= index < s.contacts.len() && s.contacts[index].request_id == request_id
            && s.contacts[index].recipient == recipient && (forall|i: int|
            0 <= i < index ==> (#[trigger] s.contacts[i]).request_id != request_id
                || s.contacts[i].recipient != recipient) ==> {
            let taken = answer_step(s, recipient, request_id, ContactStatus::Accepted, true);
            let refused = answer_step(s, recipient, request_id, ContactStatus::Rejected, false);
            &&& taken.1 == index
            &&& taken.0.contacts.len() == s.contacts.len()
            &&& refused.0.contacts.len() == s.contacts.len()
            &&& taken.0.contacts[index].status == if s.contacts[index].status
                == ContactStatus::Pending {
                ContactStatus::Accepted
            } else {
                s.contacts[index].status
            }
            &&& refused.0.contacts[index].status == ContactStatus::Rejected
            &&& taken.0.contacts[index] == (ContactView {
                status: taken.0.contacts[index].status,
                ..s.contacts[index]
            })
            &&& refused.0.contacts[index] == (ContactView {
                status: ContactStatus::Rejected,
                ..s.contacts[index]
            })
            &&& forall|i: int|
                0 <= i < s.contacts.len() && i != index ==> #[trigger] taken.0.contacts[i]
                    == s.contacts[i] && #[trigger] refused.0.contacts[i] == s.contacts[i]
            &&& taken.0 == (StoreView { contacts: taken.0.contacts, ..s })
            &&& refused.0 == (StoreView { contacts: refused.0.contacts, ..s })
        },
        (forall|i: int|
            0 <= i < s.contacts.len() ==> (#[trigger] s.contacts[i]).request_id != request_id
                || s.contacts[i].recipient != recipient) ==> answer_step(
            s,
            recipient,
            request_id,
            ContactStatus::Accepted,
            true,
        ) == (s, s.contacts.len() as int) && answer_step(
            s,
            recipient,
            request_id,
            ContactStatus::Rejected,
            false,
        ).0 == s,
{
    let wanted = is_received_request(request_id, recipient);
    if 0 <= index < s.contacts.len() && s.contacts[index].request_id == request_id
        && s.contacts[index].recipient == recipient && (forall|i: int|
        0 <= i < index ==> (#[trigger] s.contacts[i]).request_id != request_id
            || s.contacts[i].recipient != recipient) {
        rows::lemma_first_is(s.contacts, wanted, index);
    }
    if forall|i: int|
        0 <= i < s.contacts.len() ==> (#[trigger] s.contacts[i]).request_id != request_id
            || s.contacts[i].recipient != recipient {
        rows::lemma_first_is(s.contacts, wanted, s.contacts.len() as int);
    }
}

/// Requests that came in are listed where no direction is named, and those that were
/// sent where they are asked for. No other direction is known.
pub proof fn law_direction_is_incoming_or_outgoing(accept: relay_http::HeaderView, named: Seq<char>)
    requires
        relay_http::json_accept(accept) is Ok,
    ensures
        listed_direction(accept, None) == Ok::<bool, Seq<char>>(false),
        named == "outgoing"@ ==> listed_direction(accept, Some(named)) == Ok::<bool, Seq<char>>(
            true,
        ),
        named != "outgoing"@ ==> listed_direction(accept, Some(named)) == Err::<bool, Seq<char>>(
            "invalid contact direction"@,
        ),
{
}

} // verus!
