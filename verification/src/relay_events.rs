//! Polls of a device that keeps a connection to the relay open.
use vstd::prelude::*;
use vstd::utf8::*;

use crate::bytes;
use crate::json;
use crate::json::json_text;
use crate::relay_http;
use crate::relay_http::{internal, ApiError};
use crate::relay_store;
use crate::relay_store::{RelayStore, SignedRequest};
use crate::text;
use crate::text::{decimal_text, signed_decimal_text};

verus! {

/// The answer to a poll that cannot be read.
pub const INVALID_POLL: &'static str = "{\"error\":\"invalid websocket request\"}";

/// The answer to a poll that the device did not sign.
pub const UNAUTHORIZED_POLL: &'static str = "{\"error\":\"unauthorized\"}";

/// The answer to a poll that the relay failed to serve.
pub const FAILED_POLL: &'static str = "{\"error\":\"internal server error\"}";

// ---------------------------------------------------------------------------
// Polls
// ---------------------------------------------------------------------------

/// A poll: what the device has seen, and its signature.
#[derive(Clone, Debug)]
pub struct WsPollRequest {
    pub cursor: i64,
    pub nonce: String,
    pub timestamp: u64,
    pub signature: String,
}

/// What is signed of a poll.
pub open spec fn poll_body(cursor: i64, nonce: Seq<char>, timestamp: u64) -> Seq<char> {
    "{\"cursor\":"@ + text::signed_decimal(cursor as int) + ",\"nonce\":"@ + json::json_string(nonce)
        + ",\"timestamp\":"@ + text::decimal(timestamp as nat) + "}"@
}

/// Writes what is signed of a poll.
fn write_poll_body(request: &WsPollRequest) -> (body: Option<String>)
    ensures
        body matches Some(value) && value@ == poll_body(
            request.cursor,
            request.nonce@,
            request.timestamp,
        ),
{
    let nonce = json_text(request.nonce.as_str())?;
    let mut body = "{\"cursor\":".to_owned();
    body.append(signed_decimal_text(request.cursor).as_str());
    body.append(",\"nonce\":");
    body.append(nonce.as_str());
    body.append(",\"timestamp\":");
    body.append(decimal_text(request.timestamp).as_str());
    body.append("}");
    Some(body)
}

impl RelayStore {
    /// Prepares the check of a poll that a device has signed.
    pub fn verify_websocket_request(&self, device: &str, request: &WsPollRequest, now: u64) -> (result:
        Result<SignedRequest, ApiError>)
        ensures
            match relay_store::signed_by(
                self@,
                device@,
                "WS"@,
                "/v1/events"@,
                encode_utf8(poll_body(request.cursor, request.nonce@, request.timestamp)),
                request.nonce@,
                request.timestamp,
                request.signature@,
                now,
            ) {
                Some(value) => result matches Ok(signed) && signed@ == value,
                None => result matches Err(error) && error@ == relay_http::is_unauthorized(),
            },
    {
        let body = match write_poll_body(request) {
            Some(body) => body,
            None => return Err(internal("writing the poll")),
        };
        self.verify_signature(
            device,
            "WS",
            "/v1/events",
            body.as_str().as_bytes(),
            request.nonce.as_str(),
            request.timestamp,
            request.signature.as_str(),
            now,
        )
    }
}

/// What stands before a mark that neither side holds is the same on both sides.
proof fn lemma_up_to(
    left: Seq<char>,
    left_rest: Seq<char>,
    right: Seq<char>,
    right_rest: Seq<char>,
    mark: char,
)
    requires
        !left.contains(mark) && !right.contains(mark),
        left_rest.len() > 0 && right_rest.len() > 0,
        left_rest[0] == mark && right_rest[0] == mark,
        left + left_rest == right + right_rest,
    ensures
        left == right,
        left_rest == right_rest,
{
    let all = left + left_rest;
    let other = right + right_rest;
    assert(all[left.len() as int] == mark);
    assert(other[right.len() as int] == mark);
    if left.len() < right.len() {
        assert(other[left.len() as int] == right[left.len() as int]);
        assert(right.contains(mark));
    }
    if right.len() < left.len() {
        assert(all[right.len() as int] == left[right.len() as int]);
        assert(left.contains(mark));
    }
    assert(left =~= all.take(left.len() as int));
    assert(right =~= other.take(left.len() as int));
    assert(left_rest =~= all.skip(left.len() as int));
    assert(right_rest =~= other.skip(left.len() as int));
}

proof fn lemma_no_mark(value: int, mark: char)
    requires
        mark == ',' || mark == '}',
    ensures
        !text::signed_decimal(value).contains(mark),
{
    let magnitude = if value < 0 {
        (-value) as nat
    } else {
        value as nat
    };
    text::lemma_decimal_value(magnitude);
    let shown = text::signed_decimal(value);
    assert forall|i: int| 0 <= i < shown.len() implies shown[i] != mark by {
        let at = if value < 0 {
            i - 1
        } else {
            i
        };
        if at >= 0 {
            assert(text::is_digit(text::decimal(magnitude)[at]));
        }
    }
}

/// The end of what is signed of a poll.
spec fn poll_end(timestamp: u64) -> Seq<char> {
    ",\"timestamp\":"@ + (text::decimal(timestamp as nat) + "}"@)
}

/// What is signed of a poll, from the nonce on.
spec fn poll_rest(nonce: Seq<char>, timestamp: u64) -> Seq<char> {
    ",\"nonce\":\""@ + (json::json_contents(nonce) + seq!['"'] + poll_end(timestamp))
}

proof fn lemma_poll_shape(cursor: i64, nonce: Seq<char>, timestamp: u64)
    ensures
        poll_body(cursor, nonce, timestamp) == "{\"cursor\":"@ + (text::signed_decimal(
            cursor as int,
        ) + poll_rest(nonce, timestamp)),
{
    assert(",\"nonce\":\""@ =~= ",\"nonce\":"@ + seq!['"']) by {
        reveal_strlit(",\"nonce\":\"");
        reveal_strlit(",\"nonce\":");
    }
    let open = "{\"cursor\":"@;
    let number = text::signed_decimal(cursor as int);
    let middle = ",\"nonce\":"@;
    let contents = json::json_contents(nonce);
    let last = ",\"timestamp\":"@;
    let digits = text::decimal(timestamp as nat);
    let close = "}"@;
    let quote = seq!['"'];
    assert(open + number + middle + (quote + contents + quote) + last + digits + close =~= open + (
    number + ((middle + quote) + (contents + quote + (last + (digits + close))))));
}

proof fn lemma_same_start(start: Seq<char>, left: Seq<char>, right: Seq<char>)
    requires
        start + left == start + right,
    ensures
        left == right,
{
    assert(left =~= (start + left).skip(start.len() as int));
    assert(right =~= (start + right).skip(start.len() as int));
}

proof fn lemma_poll_end(timestamp: u64, other_timestamp: u64)
    requires
        poll_end(timestamp) == poll_end(other_timestamp),
    ensures
        timestamp == other_timestamp,
{
    let digits = text::decimal(timestamp as nat);
    let other_digits = text::decimal(other_timestamp as nat);
    lemma_same_start(",\"timestamp\":"@, digits + "}"@, other_digits + "}"@);
    reveal_strlit("}");
    lemma_no_mark(timestamp as int, '}');
    lemma_no_mark(other_timestamp as int, '}');
    lemma_up_to(digits, "}"@, other_digits, "}"@, '}');
    text::lemma_decimal_value(timestamp as nat);
    text::lemma_decimal_value(other_timestamp as nat);
}

/// What is signed of a poll fixes the poll: no two polls are signed alike.
pub proof fn law_poll_body_covers(
    cursor: i64,
    nonce: Seq<char>,
    timestamp: u64,
    other_cursor: i64,
    other_nonce: Seq<char>,
    other_timestamp: u64,
)
    requires
        encode_utf8(poll_body(cursor, nonce, timestamp)) == encode_utf8(
            poll_body(other_cursor, other_nonce, other_timestamp),
        ),
    ensures
        cursor == other_cursor,
        nonce == other_nonce,
        timestamp == other_timestamp,
{
    encode_utf8_decode_utf8(poll_body(cursor, nonce, timestamp));
    encode_utf8_decode_utf8(poll_body(other_cursor, other_nonce, other_timestamp));
    lemma_poll_shape(cursor, nonce, timestamp);
    lemma_poll_shape(other_cursor, other_nonce, other_timestamp);
    let number = text::signed_decimal(cursor as int);
    let other_number = text::signed_decimal(other_cursor as int);
    let rest = poll_rest(nonce, timestamp);
    let other_rest = poll_rest(other_nonce, other_timestamp);
    lemma_same_start("{\"cursor\":"@, number + rest, other_number + other_rest);
    assert(rest[0] == ',' && other_rest[0] == ',' && rest.len() > 0 && other_rest.len() > 0) by {
        reveal_strlit(",\"nonce\":\"");
    }
    lemma_no_mark(cursor as int, ',');
    lemma_no_mark(other_cursor as int, ',');
    lemma_up_to(number, rest, other_number, other_rest, ',');
    text::law_decimal_round_trip(cursor);
    text::law_decimal_round_trip(other_cursor);
    let behind = json::json_contents(nonce) + seq!['"'] + poll_end(timestamp);
    let other_behind = json::json_contents(other_nonce) + seq!['"'] + poll_end(other_timestamp);
    lemma_same_start(",\"nonce\":\""@, behind, other_behind);
    json::lemma_json_contents(nonce, poll_end(timestamp), other_nonce, poll_end(other_timestamp));
    lemma_poll_end(timestamp, other_timestamp);
}

/// What is signed of a poll is the text of an object with the cursor, the nonce and
/// the time, in this order and with nothing in between.
pub proof fn law_poll_is_signed_whole(cursor: i64, nonce: Seq<char>, timestamp: u64)
    ensures
        ({
            let body = poll_body(cursor, nonce, timestamp);
            let number = text::signed_decimal(cursor as int);
            let written = json::json_string(nonce);
            let digits = text::decimal(timestamp as nat);
            let nonce_at = 19int + number.len();
            let time_at = nonce_at + written.len() + 13;
            &&& bytes::stands_at(body, 0, "{\"cursor\":"@)
            &&& bytes::stands_at(body, 10, number)
            &&& bytes::stands_at(body, 10int + number.len(), ",\"nonce\":"@)
            &&& bytes::stands_at(body, nonce_at, written)
            &&& bytes::stands_at(body, nonce_at + written.len(), ",\"timestamp\":"@)
            &&& bytes::stands_at(body, time_at, digits)
            &&& body.len() == time_at + digits.len() + 1
            &&& body.last() == '}'
        }),
{
    reveal_strlit("{\"cursor\":");
    reveal_strlit(",\"nonce\":");
    reveal_strlit(",\"timestamp\":");
    reveal_strlit("}");
    let body = poll_body(cursor, nonce, timestamp);
    let number = text::signed_decimal(cursor as int);
    let written = json::json_string(nonce);
    let digits = text::decimal(timestamp as nat);
    let none = Seq::<char>::empty();
    let tail4 = digits + "}"@;
    let tail3 = ",\"timestamp\":"@ + tail4;
    let tail2 = written + tail3;
    let tail1 = ",\"nonce\":"@ + tail2;
    let tail0 = number + tail1;
    let front0 = "{\"cursor\":"@;
    assert(body =~= none + (front0 + tail0));
    bytes::lemma_stands(body, none, front0, tail0);
    assert(body =~= front0 + tail0);
    bytes::lemma_stands(body, front0, number, tail1);
    let front1 = front0 + number;
    assert(body =~= front1 + tail1);
    bytes::lemma_stands(body, front1, ",\"nonce\":"@, tail2);
    let front2 = front1 + ",\"nonce\":"@;
    assert(body =~= front2 + tail2);
    bytes::lemma_stands(body, front2, written, tail3);
    let front3 = front2 + written;
    assert(body =~= front3 + tail3);
    bytes::lemma_stands(body, front3, ",\"timestamp\":"@, tail4);
    let front4 = front3 + ",\"timestamp\":"@;
    assert(body =~= front4 + tail4);
    bytes::lemma_stands(body, front4, digits, "}"@);
}

} // verus!
