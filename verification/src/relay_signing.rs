//! What a device signs for the relay.
use vstd::prelude::*;
use vstd::utf8::*;

use crate::bytes;
use crate::bytes::{push_bytes, push_u64};
use crate::primitives;
use crate::primitives::sha256;

verus! {

/// What a registration is signed with.
pub const REGISTER_DOMAIN: &'static str = "safechat-relay-register-v1\0";

/// What a request is signed with.
pub const REQUEST_DOMAIN: &'static str = "safechat-relay-request-v1\0";

/// What a request for enrollment is signed with.
pub const ENROLLMENT_REQUEST_DOMAIN: &'static str = "safechat-relay-enrollment-request-v1\0";

/// A text and the zero that ends it.
pub open spec fn ended(value: Seq<char>) -> Seq<u8> {
    encode_utf8(value).push(0)
}

/// What is signed of a request.
pub open spec fn request_payload(
    method: Seq<char>,
    path: Seq<char>,
    body: Seq<u8>,
    nonce: Seq<char>,
    timestamp: u64,
) -> Seq<u8> {
    encode_utf8(REQUEST_DOMAIN@) + (ended(method) + (ended(path) + (primitives::sha256_digest(body)
        + (ended(nonce) + bytes::be_u64(timestamp)))))
}

/// What is signed of a registration.
pub open spec fn register_payload(
    client_id: Seq<char>,
    device_address: Seq<char>,
    bundle: Seq<u8>,
    challenge: Seq<u8>,
) -> Seq<u8> {
    encode_utf8(REGISTER_DOMAIN@) + (ended(client_id) + (ended(device_address) + (
    primitives::sha256_digest(bundle) + challenge)))
}

/// What is signed of a request for enrollment.
pub open spec fn enrollment_payload(
    device_address: Seq<char>,
    fingerprint: Seq<char>,
    secret_hash: Seq<char>,
    bundle: Seq<u8>,
) -> Seq<u8> {
    encode_utf8(ENROLLMENT_REQUEST_DOMAIN@) + (ended(device_address) + (ended(fingerprint) + (ended(
        secret_hash,
    ) + primitives::sha256_digest(bundle))))
}

fn push_ended(output: &mut Vec<u8>, value: &str)
    ensures
        final(output)@ == old(output)@ + ended(value@),
{
    push_bytes(output, value.as_bytes());
    output.push(0);
    assert(output@ =~= old(output)@ + ended(value@));
}

/// Writes what is signed of a request.
pub fn write_request_payload(method: &str, path: &str, body: &[u8], nonce: &str, timestamp: u64) -> (payload:
    Vec<u8>)
    ensures
        payload@ == request_payload(method@, path@, body@, nonce@, timestamp),
{
    let mut payload: Vec<u8> = Vec::new();
    push_bytes(&mut payload, REQUEST_DOMAIN.as_bytes());
    push_ended(&mut payload, method);
    push_ended(&mut payload, path);
    push_bytes(&mut payload, sha256(body).as_slice());
    push_ended(&mut payload, nonce);
    push_u64(&mut payload, timestamp);
    assert(payload@ =~= request_payload(method@, path@, body@, nonce@, timestamp));
    payload
}

/// Writes what is signed of a registration.
pub fn write_register_payload(client_id: &str, device_address: &str, bundle: &[u8], challenge: &[u8]) -> (payload:
    Vec<u8>)
    ensures
        payload@ == register_payload(client_id@, device_address@, bundle@, challenge@),
{
    let mut payload: Vec<u8> = Vec::new();
    push_bytes(&mut payload, REGISTER_DOMAIN.as_bytes());
    push_ended(&mut payload, client_id);
    push_ended(&mut payload, device_address);
    push_bytes(&mut payload, sha256(bundle).as_slice());
    push_bytes(&mut payload, challenge);
    assert(payload@ =~= register_payload(client_id@, device_address@, bundle@, challenge@));
    payload
}

/// Writes what is signed of a request for enrollment.
pub fn write_enrollment_payload(
    device_address: &str,
    fingerprint: &str,
    secret_hash: &str,
    bundle: &[u8],
) -> (payload: Vec<u8>)
    ensures
        payload@ == enrollment_payload(device_address@, fingerprint@, secret_hash@, bundle@),
{
    let mut payload: Vec<u8> = Vec::new();
    push_bytes(&mut payload, ENROLLMENT_REQUEST_DOMAIN.as_bytes());
    push_ended(&mut payload, device_address);
    push_ended(&mut payload, fingerprint);
    push_ended(&mut payload, secret_hash);
    push_bytes(&mut payload, sha256(bundle).as_slice());
    assert(payload@ =~= enrollment_payload(device_address@, fingerprint@, secret_hash@, bundle@));
    payload
}

// ---------------------------------------------------------------------------
// Laws
// ---------------------------------------------------------------------------

proof fn lemma_domains()
    ensures
        encode_utf8(REQUEST_DOMAIN@).len() > 17,
        encode_utf8(REGISTER_DOMAIN@).len() > 17,
        encode_utf8(ENROLLMENT_REQUEST_DOMAIN@).len() > 17,
        encode_utf8(REQUEST_DOMAIN@)[15] == 0x72,
        encode_utf8(REQUEST_DOMAIN@)[17] == 0x71,
        encode_utf8(REGISTER_DOMAIN@)[15] == 0x72,
        encode_utf8(REGISTER_DOMAIN@)[17] == 0x67,
        encode_utf8(ENROLLMENT_REQUEST_DOMAIN@)[15] == 0x65,
{
    reveal_strlit("safechat-relay-register-v1\0");
    reveal_strlit("safechat-relay-request-v1\0");
    reveal_strlit("safechat-relay-enrollment-request-v1\0");
    is_ascii_chars_encode_utf8(REQUEST_DOMAIN@);
    is_ascii_chars_encode_utf8(REGISTER_DOMAIN@);
    is_ascii_chars_encode_utf8(ENROLLMENT_REQUEST_DOMAIN@);
}

/// A signature for one purpose is never one for another: what is signed of a
/// request, of a registration and of a request for enrollment always differs.
pub proof fn law_payloads_are_domain_separated(
    method: Seq<char>,
    path: Seq<char>,
    body: Seq<u8>,
    nonce: Seq<char>,
    timestamp: u64,
    client_id: Seq<char>,
    device_address: Seq<char>,
    bundle: Seq<u8>,
    challenge: Seq<u8>,
    fingerprint: Seq<char>,
    secret_hash: Seq<char>,
)
    ensures
        request_payload(method, path, body, nonce, timestamp) != register_payload(
            client_id,
            device_address,
            bundle,
            challenge,
        ),
        request_payload(method, path, body, nonce, timestamp) != enrollment_payload(
            device_address,
            fingerprint,
            secret_hash,
            bundle,
        ),
        register_payload(client_id, device_address, bundle, challenge) != enrollment_payload(
            device_address,
            fingerprint,
            secret_hash,
            bundle,
        ),
{
    lemma_domains();
    let request = request_payload(method, path, body, nonce, timestamp);
    let register = register_payload(client_id, device_address, bundle, challenge);
    let enrollment = enrollment_payload(device_address, fingerprint, secret_hash, bundle);
    assert(request[17] == 0x71 && request[15] == 0x72);
    assert(register[17] == 0x67 && register[15] == 0x72);
    assert(enrollment[15] == 0x65);
}

proof fn lemma_scalar_not_zero(scalar: u32)
    requires
        scalar != 0,
        is_scalar(scalar),
    ensures
        forall|i: int|
            0 <= i < encode_scalar(scalar).len() ==> #[trigger] encode_scalar(scalar)[i] != 0,
{
    assert(scalar != 0 && scalar <= 0x7f ==> (scalar & 0x7f) as u8 != 0) by (bit_vector);
    assert(0xc0u8 | ((scalar >> 6) & 0x1f) as u8 != 0) by (bit_vector);
    assert(0xe0u8 | ((scalar >> 12) & 0x0f) as u8 != 0) by (bit_vector);
    assert(0xf0u8 | ((scalar >> 18) & 0x07) as u8 != 0) by (bit_vector);
    assert(0x80u8 | (scalar & 0x3f) as u8 != 0) by (bit_vector);
    assert(0x80u8 | ((scalar >> 6) & 0x3f) as u8 != 0) by (bit_vector);
    assert(0x80u8 | ((scalar >> 12) & 0x3f) as u8 != 0) by (bit_vector);
}

proof fn lemma_char_not_zero(character: char)
    requires
        character != '\0',
    ensures
        forall|i: int|
            0 <= i < encode_scalar(character as u32).len() ==> #[trigger] encode_scalar(
                character as u32,
            )[i] != 0,
{
    char_is_scalar(character);
    lemma_scalar_not_zero(character as u32);
}

proof fn lemma_no_zero(value: Seq<char>)
    requires
        !value.contains('\0'),
    ensures
        forall|i: int| 0 <= i < encode_utf8(value).len() ==> #[trigger] encode_utf8(value)[i] != 0,
    decreases value.len(),
{
    if value.len() > 0 {
        let rest = value.drop_first();
        assert(value[0] != '\0') by {
            assert(value.contains(value[0]));
        }
        assert forall|c: char| rest.contains(c) implies value.contains(c) by {
            let i = choose|i: int| 0 <= i < rest.len() && rest[i] == c;
            assert(value[i + 1] == c);
        }
        lemma_no_zero(rest);
        lemma_char_not_zero(value[0]);
        let first = encode_scalar(value[0] as u32);
        assert forall|i: int| 0 <= i < encode_utf8(value).len() implies #[trigger] encode_utf8(
            value,
        )[i] != 0 by {
            if i < first.len() {
                assert(encode_utf8(value)[i] == first[i]);
            } else {
                assert(encode_utf8(value)[i] == encode_utf8(rest)[i - first.len()]);
            }
        }
    }
}

/// A text without a zero in it ends where its zero stands.
proof fn lemma_ended(left: Seq<char>, left_rest: Seq<u8>, right: Seq<char>, right_rest: Seq<u8>)
    requires
        !left.contains('\0'),
        !right.contains('\0'),
        ended(left) + left_rest == ended(right) + right_rest,
    ensures
        left == right,
        left_rest == right_rest,
{
    lemma_no_zero(left);
    lemma_no_zero(right);
    let a = encode_utf8(left);
    let b = encode_utf8(right);
    let whole = ended(left) + left_rest;
    assert(whole[a.len() as int] == 0);
    assert(whole[b.len() as int] == 0) by {
        assert((ended(right) + right_rest)[b.len() as int] == 0);
    }
    if a.len() < b.len() {
        assert((ended(right) + right_rest)[a.len() as int] == b[a.len() as int]);
        assert(false);
    }
    if b.len() < a.len() {
        assert((ended(left) + left_rest)[b.len() as int] == a[b.len() as int]);
        assert(false);
    }
    assert(a =~= whole.take(a.len() as int));
    assert(b =~= (ended(right) + right_rest).take(b.len() as int));
    assert(left_rest =~= whole.skip((a.len() + 1) as int));
    assert(right_rest =~= (ended(right) + right_rest).skip((b.len() + 1) as int));
    encode_utf8_decode_utf8(left);
    encode_utf8_decode_utf8(right);
}

/// What is signed of a request fixes the whole request: with the same signed bytes
/// come the same method, path, digest of the body, nonce and time.
pub proof fn law_request_payload_covers(
    method: Seq<char>,
    path: Seq<char>,
    body: Seq<u8>,
    nonce: Seq<char>,
    timestamp: u64,
    other_method: Seq<char>,
    other_path: Seq<char>,
    other_body: Seq<u8>,
    other_nonce: Seq<char>,
    other_timestamp: u64,
)
    requires
        !method.contains('\0') && !path.contains('\0') && !nonce.contains('\0'),
        !other_method.contains('\0') && !other_path.contains('\0') && !other_nonce.contains('\0'),
        primitives::sha256_digest(body).len() == primitives::sha256_digest(other_body).len(),
        request_payload(method, path, body, nonce, timestamp) == request_payload(
            other_method,
            other_path,
            other_body,
            other_nonce,
            other_timestamp,
        ),
    ensures
        method == other_method,
        path == other_path,
        primitives::sha256_digest(body) == primitives::sha256_digest(other_body),
        nonce == other_nonce,
        timestamp == other_timestamp,
{
    let domain = encode_utf8(REQUEST_DOMAIN@);
    let digest = primitives::sha256_digest(body);
    let other_digest = primitives::sha256_digest(other_body);
    let tail = ended(nonce) + bytes::be_u64(timestamp);
    let other_tail = ended(other_nonce) + bytes::be_u64(other_timestamp);
    let behind = ended(path) + (digest + tail);
    let other_behind = ended(other_path) + (other_digest + other_tail);
    let rest = ended(method) + behind;
    let other_rest = ended(other_method) + other_behind;
    assert(rest =~= (domain + rest).skip(domain.len() as int));
    assert(other_rest =~= (domain + other_rest).skip(domain.len() as int));
    lemma_ended(method, behind, other_method, other_behind);
    lemma_ended(path, digest + tail, other_path, other_digest + other_tail);
    assert(digest =~= (digest + tail).take(digest.len() as int));
    assert(other_digest =~= (other_digest + other_tail).take(digest.len() as int));
    assert(tail =~= (digest + tail).skip(digest.len() as int));
    assert(other_tail =~= (other_digest + other_tail).skip(digest.len() as int));
    lemma_ended(nonce, bytes::be_u64(timestamp), other_nonce, bytes::be_u64(other_timestamp));
    bytes::lemma_be_u64(timestamp);
    bytes::lemma_be_u64(other_timestamp);
}

/// What is signed of a request are the name of the protocol, the method, the path,
/// the digest of the body, the nonce and the time, in this order, a zero behind each
/// text.
pub proof fn law_request_is_signed_whole(
    method: Seq<char>,
    path: Seq<char>,
    body: Seq<u8>,
    nonce: Seq<char>,
    timestamp: u64,
)
    ensures
        ({
            let payload = request_payload(method, path, body, nonce, timestamp);
            let method_at = encode_utf8("safechat-relay-request-v1\0"@).len() as int;
            let path_at = method_at + encode_utf8(method).len() + 1;
            let digest_at = path_at + encode_utf8(path).len() + 1;
            let nonce_at = digest_at + primitives::sha256_digest(body).len();
            let time_at = nonce_at + encode_utf8(nonce).len() + 1;
            &&& bytes::stands_at(payload, 0, encode_utf8("safechat-relay-request-v1\0"@))
            &&& bytes::stands_at(payload, method_at, encode_utf8(method))
            &&& payload[path_at - 1] == 0
            &&& bytes::stands_at(payload, path_at, encode_utf8(path))
            &&& payload[digest_at - 1] == 0
            &&& bytes::stands_at(payload, digest_at, primitives::sha256_digest(body))
            &&& bytes::stands_at(payload, nonce_at, encode_utf8(nonce))
            &&& payload[time_at - 1] == 0
            &&& bytes::long_number_at(payload, time_at) == timestamp
            &&& payload.len() == time_at + 8
        }),
{
    let payload = request_payload(method, path, body, nonce, timestamp);
    let domain = encode_utf8("safechat-relay-request-v1\0"@);
    let digest = primitives::sha256_digest(body);
    let none = Seq::<u8>::empty();
    let time = bytes::be_u64(timestamp);
    let tail3 = ended(nonce) + time;
    let tail2 = digest + tail3;
    let tail1 = ended(path) + tail2;
    let tail0 = ended(method) + tail1;
    assert(payload =~= none + (domain + tail0));
    bytes::lemma_stands(payload, none, domain, tail0);
    lemma_ended_stands(payload, domain, method, tail1);
    let front1 = domain + ended(method);
    assert(payload =~= front1 + tail1);
    lemma_ended_stands(payload, front1, path, tail2);
    let front2 = front1 + ended(path);
    assert(payload =~= front2 + tail2);
    bytes::lemma_stands(payload, front2, digest, tail3);
    let front3 = front2 + digest;
    assert(payload =~= front3 + tail3);
    lemma_ended_stands(payload, front3, nonce, time);
    let front4 = front3 + ended(nonce);
    assert(payload =~= front4 + (time + none));
    bytes::lemma_long_number_stands(payload, front4, timestamp, none);
    bytes::law_long_numbers_are_big_endian(timestamp, time);
}

/// What is signed to register a device are the name of the protocol, the client's
/// ID, the address of the device, the digest of its bundle and the challenge, in this
/// order, a zero behind each text.
pub proof fn law_registration_is_signed_whole(
    client_id: Seq<char>,
    device_address: Seq<char>,
    bundle: Seq<u8>,
    challenge: Seq<u8>,
)
    ensures
        ({
            let payload = register_payload(client_id, device_address, bundle, challenge);
            let client_at = encode_utf8("safechat-relay-register-v1\0"@).len() as int;
            let address_at = client_at + encode_utf8(client_id).len() + 1;
            let digest_at = address_at + encode_utf8(device_address).len() + 1;
            let challenge_at = digest_at + primitives::sha256_digest(bundle).len();
            &&& bytes::stands_at(payload, 0, encode_utf8("safechat-relay-register-v1\0"@))
            &&& bytes::stands_at(payload, client_at, encode_utf8(client_id))
            &&& payload[address_at - 1] == 0
            &&& bytes::stands_at(payload, address_at, encode_utf8(device_address))
            &&& payload[digest_at - 1] == 0
            &&& bytes::stands_at(payload, digest_at, primitives::sha256_digest(bundle))
            &&& bytes::stands_at(payload, challenge_at, challenge)
            &&& payload.len() == challenge_at + challenge.len()
        }),
{
    let payload = register_payload(client_id, device_address, bundle, challenge);
    let domain = encode_utf8("safechat-relay-register-v1\0"@);
    let digest = primitives::sha256_digest(bundle);
    let none = Seq::<u8>::empty();
    let tail2 = digest + challenge;
    let tail1 = ended(device_address) + tail2;
    let tail0 = ended(client_id) + tail1;
    assert(payload =~= none + (domain + tail0));
    bytes::lemma_stands(payload, none, domain, tail0);
    lemma_ended_stands(payload, domain, client_id, tail1);
    let front1 = domain + ended(client_id);
    assert(payload =~= front1 + tail1);
    lemma_ended_stands(payload, front1, device_address, tail2);
    let front2 = front1 + ended(device_address);
    assert(payload =~= front2 + tail2);
    bytes::lemma_stands(payload, front2, digest, challenge);
    let front3 = front2 + digest;
    assert(payload =~= front3 + (challenge + none));
    bytes::lemma_stands(payload, front3, challenge, none);
}

/// What is signed to ask for a place on the list are the name of the protocol, the
/// address of the device, its fingerprint, the hash of the secret and the digest of
/// its bundle, in this order, a zero behind each text.
pub proof fn law_enrollment_is_signed_whole(
    device_address: Seq<char>,
    fingerprint: Seq<char>,
    secret_hash: Seq<char>,
    bundle: Seq<u8>,
)
    ensures
        ({
            let payload = enrollment_payload(device_address, fingerprint, secret_hash, bundle);
            let address_at = encode_utf8("safechat-relay-enrollment-request-v1\0"@).len() as int;
            let fingerprint_at = address_at + encode_utf8(device_address).len() + 1;
            let secret_at = fingerprint_at + encode_utf8(fingerprint).len() + 1;
            let digest_at = secret_at + encode_utf8(secret_hash).len() + 1;
            &&& bytes::stands_at(
                payload,
                0,
                encode_utf8("safechat-relay-enrollment-request-v1\0"@),
            )
            &&& bytes::stands_at(payload, address_at, encode_utf8(device_address))
            &&& payload[fingerprint_at - 1] == 0
            &&& bytes::stands_at(payload, fingerprint_at, encode_utf8(fingerprint))
            &&& payload[secret_at - 1] == 0
            &&& bytes::stands_at(payload, secret_at, encode_utf8(secret_hash))
            &&& payload[digest_at - 1] == 0
            &&& bytes::stands_at(payload, digest_at, primitives::sha256_digest(bundle))
            &&& payload.len() == digest_at + primitives::sha256_digest(bundle).len()
        }),
{
    let payload = enrollment_payload(device_address, fingerprint, secret_hash, bundle);
    let domain = encode_utf8("safechat-relay-enrollment-request-v1\0"@);
    let digest = primitives::sha256_digest(bundle);
    let none = Seq::<u8>::empty();
    let tail2 = ended(secret_hash) + digest;
    let tail1 = ended(fingerprint) + tail2;
    let tail0 = ended(device_address) + tail1;
    assert(payload =~= none + (domain + tail0));
    bytes::lemma_stands(payload, none, domain, tail0);
    lemma_ended_stands(payload, domain, device_address, tail1);
    let front1 = domain + ended(device_address);
    assert(payload =~= front1 + tail1);
    lemma_ended_stands(payload, front1, fingerprint, tail2);
    let front2 = front1 + ended(fingerprint);
    assert(payload =~= front2 + tail2);
    lemma_ended_stands(payload, front2, secret_hash, digest);
    let front3 = front2 + ended(secret_hash);
    assert(payload =~= front3 + (digest + none));
    bytes::lemma_stands(payload, front3, digest, none);
}

proof fn lemma_ended_stands(whole: Seq<u8>, front: Seq<u8>, value: Seq<char>, rest: Seq<u8>)
    requires
        whole == front + (ended(value) + rest),
    ensures
        bytes::stands_at(whole, front.len() as int, encode_utf8(value)),
        whole[front.len() as int + encode_utf8(value).len()] == 0,
{
    let zero = seq![0u8];
    assert(whole =~= front + (encode_utf8(value) + (zero + rest)));
    bytes::lemma_stands(whole, front, encode_utf8(value), zero + rest);
}

} // verus!
