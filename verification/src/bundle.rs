//! Public prekey bundles and signed identity recovery records.
use vstd::prelude::*;
use vstd::utf8::*;

use crate::bytes;
use crate::bytes::{copy_bytes, copy_range, get_u32, get_u64, push_bytes, push_u32, push_u64};
use crate::signal;
use crate::signal::{
    write_address, SignalError, FORMAT_VERSION, FRAME_BUNDLE, FRAME_RECOVERY, MAX_BUNDLE_FIELD_LEN,
};
use crate::text;
use crate::text::{hex_text, utf8_string};

verus! {

/// A one-time prekey of a bundle.
#[derive(Clone, Debug, PartialEq, Eq)]
pub struct OneTimePreKey {
    pub id: u32,
    pub public_key: Vec<u8>,
}

/// A versioned export of the public portion of a prekey bundle. It is intended
/// to be copied through a secondary channel.
#[derive(Clone, Debug, PartialEq, Eq)]
pub struct SignalPreKeyBundle {
    pub name: String,
    pub device_id: u32,
    pub registration_id: u32,
    pub pre_key: Option<OneTimePreKey>,
    pub signed_pre_key_id: u32,
    pub signed_pre_key_public: Vec<u8>,
    pub signed_pre_key_signature: Vec<u8>,
    pub kyber_pre_key_id: u32,
    pub kyber_pre_key_public: Vec<u8>,
    pub kyber_pre_key_signature: Vec<u8>,
    pub identity_key: Vec<u8>,
}

/// The contents of a [`SignalPreKeyBundle`].
#[verifier::ext_equal]
pub struct BundleView {
    pub name: Seq<char>,
    pub device_id: u32,
    pub registration_id: u32,
    pub pre_key: Option<(u32, Seq<u8>)>,
    pub signed_pre_key_id: u32,
    pub signed_pre_key_public: Seq<u8>,
    pub signed_pre_key_signature: Seq<u8>,
    pub kyber_pre_key_id: u32,
    pub kyber_pre_key_public: Seq<u8>,
    pub kyber_pre_key_signature: Seq<u8>,
    pub identity_key: Seq<u8>,
}

/// The contents of an optional prekey.
pub open spec fn pre_key_view(value: Option<OneTimePreKey>) -> Option<(u32, Seq<u8>)> {
    match value {
        Some(key) => Some((key.id, key.public_key@)),
        None => None,
    }
}

impl View for SignalPreKeyBundle {
    type V = BundleView;

    open spec fn view(&self) -> BundleView {
        BundleView {
            name: self.name@,
            device_id: self.device_id,
            registration_id: self.registration_id,
            pre_key: pre_key_view(self.pre_key),
            signed_pre_key_id: self.signed_pre_key_id,
            signed_pre_key_public: self.signed_pre_key_public@,
            signed_pre_key_signature: self.signed_pre_key_signature@,
            kyber_pre_key_id: self.kyber_pre_key_id,
            kyber_pre_key_public: self.kyber_pre_key_public@,
            kyber_pre_key_signature: self.kyber_pre_key_signature@,
            identity_key: self.identity_key@,
        }
    }
}

// ---------------------------------------------------------------------------
// Layout
// ---------------------------------------------------------------------------

/// A byte string with its length in front.
pub open spec fn field(value: Seq<u8>) -> Seq<u8> {
    bytes::be_u32(value.len() as u32) + value
}

/// An optional prekey.
pub open spec fn pre_key_bytes(value: Option<(u32, Seq<u8>)>) -> Seq<u8> {
    match value {
        Some((id, key)) => seq![1u8] + bytes::be_u32(id) + field(key),
        None => seq![0u8],
    }
}

/// A key with its number in front.
pub open spec fn numbered_key(id: u32, key: Seq<u8>, signature: Seq<u8>) -> Seq<u8> {
    bytes::be_u32(id) + field(key) + field(signature)
}

/// Who the bundle belongs to.
pub open spec fn owner_bytes(value: BundleView) -> Seq<u8> {
    field(encode_utf8(value.name)) + bytes::be_u32(value.device_id) + bytes::be_u32(
        value.registration_id,
    )
}

/// The frame of a bundle.
pub open spec fn bundle_frame(value: BundleView) -> Seq<u8> {
    seq![FORMAT_VERSION, FRAME_BUNDLE] + owner_bytes(value) + pre_key_bytes(value.pre_key)
        + numbered_key(
        value.signed_pre_key_id,
        value.signed_pre_key_public,
        value.signed_pre_key_signature,
    ) + numbered_key(
        value.kyber_pre_key_id,
        value.kyber_pre_key_public,
        value.kyber_pre_key_signature,
    ) + field(value.identity_key)
}

/// Whether a byte string is short enough for a field.
pub open spec fn fits(value: Seq<u8>) -> bool {
    value.len() <= MAX_BUNDLE_FIELD_LEN
}

/// Whether every field of a bundle is short enough.
pub open spec fn bundle_fits(value: BundleView) -> bool {
    &&& fits(encode_utf8(value.name))
    &&& value.pre_key matches Some((_, key)) ==> fits(key)
    &&& fits(value.signed_pre_key_public)
    &&& fits(value.signed_pre_key_signature)
    &&& fits(value.kyber_pre_key_public)
    &&& fits(value.kyber_pre_key_signature)
    &&& fits(value.identity_key)
}

/// What writing a bundle gives.
pub open spec fn bundle_encoding(value: BundleView) -> Result<Seq<u8>, SignalError> {
    if bundle_fits(value) {
        Ok(bundle_frame(value))
    } else {
        Err(SignalError::FieldTooLarge)
    }
}

// ---------------------------------------------------------------------------
// Reading
// ---------------------------------------------------------------------------

/// A value read from the front of some bytes, with the bytes behind it.
pub type Read<T> = Result<(T, Seq<u8>), SignalError>;

/// Takes `length` bytes from the front.
#[verifier::opaque]
pub open spec fn read_take(bytes: Seq<u8>, length: nat) -> Read<Seq<u8>> {
    if bytes.len() < length {
        Err(SignalError::Truncated)
    } else {
        Ok((bytes.subrange(0, length as int), bytes.skip(length as int)))
    }
}

/// Reads one byte.
pub open spec fn read_byte(bytes: Seq<u8>) -> Read<u8> {
    match read_take(bytes, 1) {
        Ok((taken, rest)) => Ok((taken[0], rest)),
        Err(error) => Err(error),
    }
}

/// Reads a four-byte integer.
pub open spec fn read_u32(bytes: Seq<u8>) -> Read<u32> {
    match read_take(bytes, 4) {
        Ok((taken, rest)) => Ok((bytes::be_u32_value(taken), rest)),
        Err(error) => Err(error),
    }
}

/// Reads an eight-byte integer.
pub open spec fn read_u64(bytes: Seq<u8>) -> Read<u64> {
    match read_take(bytes, 8) {
        Ok((taken, rest)) => Ok((bytes::be_u64_value(taken), rest)),
        Err(error) => Err(error),
    }
}

/// Reads a byte string.
pub open spec fn read_field(bytes: Seq<u8>) -> Read<Seq<u8>> {
    match read_u32(bytes) {
        Ok((length, rest)) => if length > MAX_BUNDLE_FIELD_LEN {
            Err(SignalError::FieldTooLarge)
        } else {
            read_take(rest, length as nat)
        },
        Err(error) => Err(error),
    }
}

/// Reads the version and the kind of a frame.
pub open spec fn read_frame(bytes: Seq<u8>, frame: u8) -> Result<Seq<u8>, SignalError> {
    match read_byte(bytes) {
        Err(error) => Err(error),
        Ok((version, rest)) => if version != FORMAT_VERSION {
            Err(SignalError::InvalidFrame)
        } else {
            match read_byte(rest) {
                Err(error) => Err(error),
                Ok((kind, rest)) => if kind != frame {
                    Err(SignalError::InvalidFrame)
                } else {
                    Ok(rest)
                },
            }
        },
    }
}

/// Reads who a bundle belongs to: name, device and registration.
pub open spec fn read_owner(bytes: Seq<u8>) -> Read<(Seq<char>, u32, u32)> {
    match read_field(bytes) {
        Err(error) => Err(error),
        Ok((name, rest)) => if !valid_utf8(name) {
            Err(SignalError::NameNotUtf8)
        } else {
            match read_u32(rest) {
                Err(error) => Err(error),
                Ok((device_id, rest)) => match read_u32(rest) {
                    Err(error) => Err(error),
                    Ok((registration_id, rest)) => Ok(
                        ((decode_utf8(name), device_id, registration_id), rest),
                    ),
                },
            }
        },
    }
}

/// Reads an optional prekey. Any flag but 1 says that there is none.
pub open spec fn read_pre_key(bytes: Seq<u8>) -> Read<Option<(u32, Seq<u8>)>> {
    match read_byte(bytes) {
        Err(error) => Err(error),
        Ok((flag, rest)) => if flag != 1 {
            Ok((None, rest))
        } else {
            match read_u32(rest) {
                Err(error) => Err(error),
                Ok((id, rest)) => match read_field(rest) {
                    Err(error) => Err(error),
                    Ok((key, rest)) => Ok((Some((id, key)), rest)),
                },
            }
        },
    }
}

/// Reads a key with its number and its signature.
pub open spec fn read_numbered_key(bytes: Seq<u8>) -> Read<(u32, Seq<u8>, Seq<u8>)> {
    match read_u32(bytes) {
        Err(error) => Err(error),
        Ok((id, rest)) => match read_field(rest) {
            Err(error) => Err(error),
            Ok((key, rest)) => match read_field(rest) {
                Err(error) => Err(error),
                Ok((signature, rest)) => Ok(((id, key, signature), rest)),
            },
        },
    }
}

/// What reading a bundle gives.
pub open spec fn bundle_decoding(input: Seq<u8>) -> Result<BundleView, SignalError> {
    match read_frame(input, FRAME_BUNDLE) {
        Err(error) => Err(error),
        Ok(rest) => match read_owner(rest) {
            Err(error) => Err(error),
            Ok((owner, rest)) => match read_pre_key(rest) {
                Err(error) => Err(error),
                Ok((pre_key, rest)) => match read_numbered_key(rest) {
                    Err(error) => Err(error),
                    Ok((signed, rest)) => match read_numbered_key(rest) {
                        Err(error) => Err(error),
                        Ok((kyber, rest)) => match read_field(rest) {
                            Err(error) => Err(error),
                            Ok((identity_key, rest)) => if rest.len() != 0 {
                                Err(SignalError::TrailingBundleBytes)
                            } else {
                                Ok(
                                    BundleView {
                                        name: owner.0,
                                        device_id: owner.1,
                                        registration_id: owner.2,
                                        pre_key,
                                        signed_pre_key_id: signed.0,
                                        signed_pre_key_public: signed.1,
                                        signed_pre_key_signature: signed.2,
                                        kyber_pre_key_id: kyber.0,
                                        kyber_pre_key_public: kyber.1,
                                        kyber_pre_key_signature: kyber.2,
                                        identity_key,
                                    },
                                )
                            },
                        },
                    },
                },
            },
        },
    }
}

// ---------------------------------------------------------------------------
// Writing and reading bundles
// ---------------------------------------------------------------------------

/// Appends a byte string that is short enough for a field.
fn put_bytes(output: &mut Vec<u8>, value: &[u8]) -> (result: Result<(), SignalError>)
    ensures
        if fits(value@) {
            result is Ok && final(output)@ == old(output)@ + field(value@)
        } else {
            result == Err::<(), SignalError>(SignalError::FieldTooLarge)
        },
{
    if value.len() > MAX_BUNDLE_FIELD_LEN {
        return Err(SignalError::FieldTooLarge);
    }
    push_u32(output, value.len() as u32);
    push_bytes(output, value);
    assert(output@ =~= old(output)@ + field(value@));
    Ok(())
}

fn put_numbered_key(
    output: &mut Vec<u8>,
    id: u32,
    key: &[u8],
    signature: &[u8],
) -> (result: Result<(), SignalError>)
    ensures
        if fits(key@) && fits(signature@) {
            result is Ok && final(output)@ == old(output)@ + numbered_key(id, key@, signature@)
        } else {
            result == Err::<(), SignalError>(SignalError::FieldTooLarge)
        },
{
    push_u32(output, id);
    put_bytes(output, key)?;
    put_bytes(output, signature)?;
    assert(output@ =~= old(output)@ + numbered_key(id, key@, signature@));
    Ok(())
}

fn put_owner(output: &mut Vec<u8>, value: &SignalPreKeyBundle) -> (result: Result<(), SignalError>)
    ensures
        if fits(encode_utf8(value@.name)) {
            result is Ok && final(output)@ == old(output)@ + owner_bytes(value@)
        } else {
            result == Err::<(), SignalError>(SignalError::FieldTooLarge)
        },
{
    put_bytes(output, value.name.as_str().as_bytes())?;
    push_u32(output, value.device_id);
    push_u32(output, value.registration_id);
    assert(output@ =~= old(output)@ + owner_bytes(value@));
    Ok(())
}

fn put_pre_key(output: &mut Vec<u8>, value: &Option<OneTimePreKey>) -> (result: Result<
    (),
    SignalError,
>)
    ensures
        if pre_key_view(*value) matches Some((_, key)) ==> fits(key) {
            result is Ok && final(output)@ == old(output)@ + pre_key_bytes(pre_key_view(*value))
        } else {
            result == Err::<(), SignalError>(SignalError::FieldTooLarge)
        },
{
    match value {
        Some(key) => {
            output.push(1);
            push_u32(output, key.id);
            put_bytes(output, key.public_key.as_slice())?;
        },
        None => output.push(0),
    }
    assert(output@ =~= old(output)@ + pre_key_bytes(pre_key_view(*value)));
    Ok(())
}

/// A position in a frame.
struct BundleReader<'a> {
    input: &'a [u8],
    offset: usize,
}

impl<'a> BundleReader<'a> {
    spec fn wf(self) -> bool {
        self.offset <= self.input@.len()
    }

    spec fn rest(self) -> Seq<u8> {
        self.input@.skip(self.offset as int)
    }

    /// Moves over `length` bytes and gives the position in front of them.
    fn take(&mut self, length: usize) -> (result: Result<usize, SignalError>)
        requires
            old(self).wf(),
        ensures
            final(self).wf(),
            final(self).input == old(self).input,
            match read_take(old(self).rest(), length as nat) {
                Ok((taken, rest)) => {
                    &&& result matches Ok(start)
                    &&& start == old(self).offset
                    &&& start + length == final(self).offset
                    &&& taken == old(self).input@.subrange(start as int, start + length)
                    &&& final(self).rest() == rest
                },
                Err(error) => result == Err::<usize, SignalError>(error),
            },
    {
        reveal(read_take);
        let start: usize = self.offset;
        if self.input.len() - start < length {
            return Err(SignalError::Truncated);
        }
        self.offset = start + length;
        assert(old(self).rest().subrange(0, length as int) =~= self.input@.subrange(
            start as int,
            start + length,
        ));
        assert(old(self).rest().skip(length as int) =~= self.rest());
        Ok(start)
    }

    fn expect_frame(&mut self, frame: u8) -> (result: Result<(), SignalError>)
        requires
            old(self).wf(),
        ensures
            final(self).wf(),
            final(self).input == old(self).input,
            match read_frame(old(self).rest(), frame) {
                Ok(rest) => result is Ok && final(self).rest() == rest,
                Err(error) => result == Err::<(), SignalError>(error),
            },
    {
        if self.byte()? != FORMAT_VERSION {
            return Err(SignalError::InvalidFrame);
        }
        if self.byte()? != frame {
            return Err(SignalError::InvalidFrame);
        }
        Ok(())
    }

    fn byte(&mut self) -> (result: Result<u8, SignalError>)
        requires
            old(self).wf(),
        ensures
            final(self).wf(),
            final(self).input == old(self).input,
            match read_byte(old(self).rest()) {
                Ok((value, rest)) => result == Ok::<u8, SignalError>(value) && final(self).rest()
                    == rest,
                Err(error) => result == Err::<u8, SignalError>(error),
            },
    {
        let start: usize = self.take(1)?;
        Ok(self.input[start])
    }

    fn u32(&mut self) -> (result: Result<u32, SignalError>)
        requires
            old(self).wf(),
        ensures
            final(self).wf(),
            final(self).input == old(self).input,
            match read_u32(old(self).rest()) {
                Ok((value, rest)) => result == Ok::<u32, SignalError>(value) && final(self).rest()
                    == rest,
                Err(error) => result == Err::<u32, SignalError>(error),
            },
    {
        let start: usize = self.take(4)?;
        Ok(get_u32(self.input, start))
    }

    fn u64(&mut self) -> (result: Result<u64, SignalError>)
        requires
            old(self).wf(),
        ensures
            final(self).wf(),
            final(self).input == old(self).input,
            match read_u64(old(self).rest()) {
                Ok((value, rest)) => result == Ok::<u64, SignalError>(value) && final(self).rest()
                    == rest,
                Err(error) => result == Err::<u64, SignalError>(error),
            },
    {
        let start: usize = self.take(8)?;
        Ok(get_u64(self.input, start))
    }

    fn bytes(&mut self) -> (result: Result<Vec<u8>, SignalError>)
        requires
            old(self).wf(),
        ensures
            final(self).wf(),
            final(self).input == old(self).input,
            match read_field(old(self).rest()) {
                Ok((value, rest)) => result matches Ok(copy) && copy@ == value
                    && final(self).rest() == rest,
                Err(error) => result == Err::<Vec<u8>, SignalError>(error),
            },
    {
        let length: u32 = self.u32()?;
        if length as u64 > MAX_BUNDLE_FIELD_LEN as u64 {
            return Err(SignalError::FieldTooLarge);
        }
        let start: usize = self.take(length as usize)?;
        Ok(copy_range(self.input, start, start + length as usize))
    }

    fn owner(&mut self) -> (result: Result<(String, u32, u32), SignalError>)
        requires
            old(self).wf(),
        ensures
            final(self).wf(),
            final(self).input == old(self).input,
            match read_owner(old(self).rest()) {
                Ok((value, rest)) => {
                    &&& result matches Ok(owner)
                    &&& (owner.0@, owner.1, owner.2) == value
                    &&& final(self).rest() == rest
                },
                Err(error) => result == Err::<(String, u32, u32), SignalError>(error),
            },
    {
        let name = match utf8_string(self.bytes()?) {
            Some(name) => name,
            None => {
                return Err(SignalError::NameNotUtf8);
            },
        };
        let device_id: u32 = self.u32()?;
        let registration_id: u32 = self.u32()?;
        Ok((name, device_id, registration_id))
    }

    fn pre_key(&mut self) -> (result: Result<Option<OneTimePreKey>, SignalError>)
        requires
            old(self).wf(),
        ensures
            final(self).wf(),
            final(self).input == old(self).input,
            match read_pre_key(old(self).rest()) {
                Ok((value, rest)) => result matches Ok(key) && pre_key_view(key) == value
                    && final(self).rest() == rest,
                Err(error) => result == Err::<Option<OneTimePreKey>, SignalError>(error),
            },
    {
        if self.byte()? != 1 {
            return Ok(None);
        }
        let id: u32 = self.u32()?;
        let public_key = self.bytes()?;
        Ok(Some(OneTimePreKey { id, public_key }))
    }

    fn numbered_key(&mut self) -> (result: Result<(u32, Vec<u8>, Vec<u8>), SignalError>)
        requires
            old(self).wf(),
        ensures
            final(self).wf(),
            final(self).input == old(self).input,
            match read_numbered_key(old(self).rest()) {
                Ok((value, rest)) => {
                    &&& result matches Ok(key)
                    &&& (key.0, key.1@, key.2@) == value
                    &&& final(self).rest() == rest
                },
                Err(error) => result == Err::<(u32, Vec<u8>, Vec<u8>), SignalError>(error),
            },
    {
        let id: u32 = self.u32()?;
        let key = self.bytes()?;
        let signature = self.bytes()?;
        Ok((id, key, signature))
    }
}

/// An identity key in hexadecimal notation.
pub fn identity_fingerprint(identity_key: &[u8]) -> (fingerprint: String)
    ensures
        fingerprint@ == text::hex(identity_key@),
{
    hex_text(identity_key)
}

impl SignalPreKeyBundle {
    /// Copies the bundle.
    pub(crate) fn copy(&self) -> (bundle: SignalPreKeyBundle)
        ensures
            bundle@ == self@,
    {
        SignalPreKeyBundle {
            name: self.name.clone(),
            device_id: self.device_id,
            registration_id: self.registration_id,
            pre_key: match &self.pre_key {
                Some(key) => Some(
                    OneTimePreKey {
                        id: key.id,
                        public_key: copy_bytes(key.public_key.as_slice()),
                    },
                ),
                None => None,
            },
            signed_pre_key_id: self.signed_pre_key_id,
            signed_pre_key_public: copy_bytes(self.signed_pre_key_public.as_slice()),
            signed_pre_key_signature: copy_bytes(self.signed_pre_key_signature.as_slice()),
            kyber_pre_key_id: self.kyber_pre_key_id,
            kyber_pre_key_public: copy_bytes(self.kyber_pre_key_public.as_slice()),
            kyber_pre_key_signature: copy_bytes(self.kyber_pre_key_signature.as_slice()),
            identity_key: copy_bytes(self.identity_key.as_slice()),
        }
    }

    /// Writes the bundle.
    pub fn encode(&self) -> (result: Result<Vec<u8>, SignalError>)
        ensures
            match bundle_encoding(self@) {
                Ok(frame) => result matches Ok(output) && output@ == frame,
                Err(error) => result == Err::<Vec<u8>, SignalError>(error),
            },
    {
        let mut output: Vec<u8> = Vec::new();
        output.push(FORMAT_VERSION);
        output.push(FRAME_BUNDLE);
        assert(output@ =~= seq![FORMAT_VERSION, FRAME_BUNDLE]);
        put_owner(&mut output, self)?;
        put_pre_key(&mut output, &self.pre_key)?;
        put_numbered_key(
            &mut output,
            self.signed_pre_key_id,
            self.signed_pre_key_public.as_slice(),
            self.signed_pre_key_signature.as_slice(),
        )?;
        put_numbered_key(
            &mut output,
            self.kyber_pre_key_id,
            self.kyber_pre_key_public.as_slice(),
            self.kyber_pre_key_signature.as_slice(),
        )?;
        put_bytes(&mut output, self.identity_key.as_slice())?;
        Ok(output)
    }

    /// Reads a bundle.
    pub fn decode(input: &[u8]) -> (result: Result<SignalPreKeyBundle, SignalError>)
        ensures
            match bundle_decoding(input@) {
                Ok(value) => result matches Ok(bundle) && bundle@ == value,
                Err(error) => result == Err::<SignalPreKeyBundle, SignalError>(error),
            },
    {
        let mut reader = BundleReader { input, offset: 0 };
        assert(input@.skip(0) =~= input@);
        reader.expect_frame(FRAME_BUNDLE)?;
        let (name, device_id, registration_id): (String, u32, u32) = reader.owner()?;
        let pre_key = reader.pre_key()?;
        let signed = reader.numbered_key()?;
        let kyber = reader.numbered_key()?;
        let identity_key = reader.bytes()?;
        if reader.offset != input.len() {
            return Err(SignalError::TrailingBundleBytes);
        }
        Ok(
            SignalPreKeyBundle {
                name,
                device_id,
                registration_id,
                pre_key,
                signed_pre_key_id: signed.0,
                signed_pre_key_public: signed.1,
                signed_pre_key_signature: signed.2,
                kyber_pre_key_id: kyber.0,
                kyber_pre_key_public: kyber.1,
                kyber_pre_key_signature: kyber.2,
                identity_key,
            },
        )
    }

    /// The address of the device that the bundle belongs to.
    pub fn address(&self) -> (address: String)
        ensures
            address@ == signal::address_text(self@.name, self@.device_id),
    {
        write_address(self.name.as_str(), self.device_id)
    }

    /// The identity key of the device.
    pub fn identity_key(&self) -> (key: &[u8])
        ensures
            key@ == self@.identity_key,
    {
        self.identity_key.as_slice()
    }

    /// The fingerprint of the device's identity.
    pub fn fingerprint(&self) -> (fingerprint: String)
        ensures
            fingerprint@ == text::hex(self@.identity_key),
    {
        identity_fingerprint(self.identity_key.as_slice())
    }
}

// ---------------------------------------------------------------------------
// Reading undoes writing
// ---------------------------------------------------------------------------

proof fn lemma_join3(a: Seq<u8>, b: Seq<u8>, c: Seq<u8>)
    ensures
        a + b + c == a + (b + c),
{
    assert(a + b + c =~= a + (b + c));
}

proof fn lemma_join4(a: Seq<u8>, b: Seq<u8>, c: Seq<u8>, d: Seq<u8>)
    ensures
        a + b + c + d == a + (b + (c + d)),
{
    assert(a + b + c + d =~= a + (b + (c + d)));
}

proof fn lemma_join7(
    a: Seq<u8>,
    b: Seq<u8>,
    c: Seq<u8>,
    d: Seq<u8>,
    e: Seq<u8>,
    f: Seq<u8>,
    g: Seq<u8>,
)
    ensures
        a + b + c + d + e + f + g == a + (b + (c + (d + (e + (f + g))))),
{
    assert(a + b + c + d + e + f + g =~= a + (b + (c + (d + (e + (f + g))))));
}

proof fn lemma_join_empty(a: Seq<u8>)
    ensures
        a + Seq::<u8>::empty() == a,
{
    assert(a + Seq::<u8>::empty() =~= a);
}

proof fn lemma_take(front: Seq<u8>, rest: Seq<u8>)
    ensures
        read_take(front + rest, front.len()) == Ok::<(Seq<u8>, Seq<u8>), SignalError>(
            (front, rest),
        ),
{
    reveal(read_take);
    assert((front + rest).subrange(0, front.len() as int) =~= front);
    assert((front + rest).skip(front.len() as int) =~= rest);
}

proof fn lemma_taken(input: Seq<u8>, length: nat)
    requires
        read_take(input, length) is Ok,
    ensures
        read_take(input, length)->Ok_0.0.len() == length,
        input == read_take(input, length)->Ok_0.0 + read_take(input, length)->Ok_0.1,
{
    reveal(read_take);
    assert(input =~= input.subrange(0, length as int) + input.skip(length as int));
}

proof fn lemma_read_byte(value: u8, rest: Seq<u8>)
    ensures
        read_byte(seq![value] + rest) == Ok::<(u8, Seq<u8>), SignalError>((value, rest)),
{
    lemma_take(seq![value], rest);
}

proof fn lemma_read_byte_back(input: Seq<u8>)
    requires
        read_byte(input) is Ok,
    ensures
        input == seq![read_byte(input)->Ok_0.0] + read_byte(input)->Ok_0.1,
{
    lemma_taken(input, 1);
    assert(input.subrange(0, 1) =~= seq![input.subrange(0, 1)[0]]);
}

proof fn lemma_read_u32(value: u32, rest: Seq<u8>)
    ensures
        read_u32(bytes::be_u32(value) + rest) == Ok::<(u32, Seq<u8>), SignalError>((value, rest)),
{
    bytes::lemma_be_u32(value);
    lemma_take(bytes::be_u32(value), rest);
}

proof fn lemma_read_u32_back(input: Seq<u8>)
    requires
        read_u32(input) is Ok,
    ensures
        input == bytes::be_u32(read_u32(input)->Ok_0.0) + read_u32(input)->Ok_0.1,
{
    lemma_taken(input, 4);
    bytes::lemma_be_u32_value(input.subrange(0, 4));
}

proof fn lemma_read_u64(value: u64, rest: Seq<u8>)
    ensures
        read_u64(bytes::be_u64(value) + rest) == Ok::<(u64, Seq<u8>), SignalError>((value, rest)),
{
    bytes::lemma_be_u64(value);
    lemma_take(bytes::be_u64(value), rest);
}

proof fn lemma_read_u64_back(input: Seq<u8>)
    requires
        read_u64(input) is Ok,
    ensures
        input == bytes::be_u64(read_u64(input)->Ok_0.0) + read_u64(input)->Ok_0.1,
{
    lemma_taken(input, 8);
    bytes::lemma_be_u64_value(input.subrange(0, 8));
}

proof fn lemma_read_field(value: Seq<u8>, rest: Seq<u8>)
    requires
        fits(value),
    ensures
        read_field(field(value) + rest) == Ok::<(Seq<u8>, Seq<u8>), SignalError>((value, rest)),
{
    let length = value.len() as u32;
    lemma_join3(bytes::be_u32(length), value, rest);
    lemma_read_u32(length, value + rest);
    lemma_take(value, rest);
}

proof fn lemma_read_field_back(input: Seq<u8>)
    requires
        read_field(input) is Ok,
    ensures
        fits(read_field(input)->Ok_0.0),
        input == field(read_field(input)->Ok_0.0) + read_field(input)->Ok_0.1,
{
    lemma_read_u32_back(input);
    let (length, behind) = read_u32(input)->Ok_0;
    lemma_taken(behind, length as nat);
    let (value, rest) = read_field(input)->Ok_0;
    lemma_join3(bytes::be_u32(length), value, rest);
}

proof fn lemma_read_frame(frame: u8, rest: Seq<u8>)
    ensures
        read_frame(seq![FORMAT_VERSION, frame] + rest, frame) == Ok::<Seq<u8>, SignalError>(rest),
{
    assert(seq![FORMAT_VERSION, frame] + rest =~= seq![FORMAT_VERSION] + (seq![frame] + rest));
    lemma_read_byte(FORMAT_VERSION, seq![frame] + rest);
    lemma_read_byte(frame, rest);
}

proof fn lemma_read_frame_back(input: Seq<u8>, frame: u8)
    requires
        read_frame(input, frame) is Ok,
    ensures
        input == seq![FORMAT_VERSION, frame] + read_frame(input, frame)->Ok_0,
{
    lemma_read_byte_back(input);
    let behind = read_byte(input)->Ok_0.1;
    lemma_read_byte_back(behind);
    let rest = read_frame(input, frame)->Ok_0;
    assert(seq![FORMAT_VERSION, frame] + rest =~= seq![FORMAT_VERSION] + (seq![frame] + rest));
}

proof fn lemma_read_owner(value: BundleView, rest: Seq<u8>)
    requires
        fits(encode_utf8(value.name)),
    ensures
        read_owner(owner_bytes(value) + rest) == Ok::<((Seq<char>, u32, u32), Seq<u8>), SignalError>(
            ((value.name, value.device_id, value.registration_id), rest),
        ),
{
    let name = encode_utf8(value.name);
    let device = bytes::be_u32(value.device_id);
    let registration = bytes::be_u32(value.registration_id);
    lemma_join4(field(name), device, registration, rest);
    lemma_read_field(name, device + (registration + rest));
    encode_utf8_valid_utf8(value.name);
    encode_utf8_decode_utf8(value.name);
    lemma_read_u32(value.device_id, registration + rest);
    lemma_read_u32(value.registration_id, rest);
}

proof fn lemma_read_owner_back(input: Seq<u8>, value: BundleView)
    requires
        read_owner(input) is Ok,
        read_owner(input)->Ok_0.0 == (value.name, value.device_id, value.registration_id),
    ensures
        fits(encode_utf8(value.name)),
        input == owner_bytes(value) + read_owner(input)->Ok_0.1,
{
    lemma_read_field_back(input);
    let (name, rest0) = read_field(input)->Ok_0;
    decode_utf8_encode_utf8(name);
    lemma_read_u32_back(rest0);
    let (device, rest1) = read_u32(rest0)->Ok_0;
    lemma_read_u32_back(rest1);
    let (registration, rest2) = read_u32(rest1)->Ok_0;
    lemma_join4(field(name), bytes::be_u32(device), bytes::be_u32(registration), rest2);
}

proof fn lemma_read_pre_key(value: Option<(u32, Seq<u8>)>, rest: Seq<u8>)
    requires
        value matches Some((_, key)) ==> fits(key),
    ensures
        read_pre_key(pre_key_bytes(value) + rest) == Ok::<
            (Option<(u32, Seq<u8>)>, Seq<u8>),
            SignalError,
        >((value, rest)),
{
    match value {
        Some((id, key)) => {
            lemma_join4(seq![1u8], bytes::be_u32(id), field(key), rest);
            lemma_read_byte(1, bytes::be_u32(id) + (field(key) + rest));
            lemma_read_u32(id, field(key) + rest);
            lemma_read_field(key, rest);
        },
        None => lemma_read_byte(0, rest),
    }
}

proof fn lemma_read_pre_key_back(input: Seq<u8>)
    requires
        read_pre_key(input) is Ok,
        read_byte(input)->Ok_0.0 <= 1,
    ensures
        read_pre_key(input)->Ok_0.0 matches Some((_, key)) ==> fits(key),
        input == pre_key_bytes(read_pre_key(input)->Ok_0.0) + read_pre_key(input)->Ok_0.1,
{
    lemma_read_byte_back(input);
    let (flag, rest0) = read_byte(input)->Ok_0;
    if flag == 1 {
        lemma_read_u32_back(rest0);
        let (id, rest1) = read_u32(rest0)->Ok_0;
        lemma_read_field_back(rest1);
        let (key, rest2) = read_field(rest1)->Ok_0;
        lemma_join4(seq![1u8], bytes::be_u32(id), field(key), rest2);
    }
}

proof fn lemma_read_numbered_key(id: u32, key: Seq<u8>, signature: Seq<u8>, rest: Seq<u8>)
    requires
        fits(key),
        fits(signature),
    ensures
        read_numbered_key(numbered_key(id, key, signature) + rest) == Ok::<
            ((u32, Seq<u8>, Seq<u8>), Seq<u8>),
            SignalError,
        >(((id, key, signature), rest)),
{
    lemma_join4(bytes::be_u32(id), field(key), field(signature), rest);
    lemma_read_u32(id, field(key) + (field(signature) + rest));
    lemma_read_field(key, field(signature) + rest);
    lemma_read_field(signature, rest);
}

proof fn lemma_read_numbered_key_back(input: Seq<u8>)
    requires
        read_numbered_key(input) is Ok,
    ensures
        ({
            let ((id, key, signature), rest) = read_numbered_key(input)->Ok_0;
            fits(key) && fits(signature) && input == numbered_key(id, key, signature) + rest
        }),
{
    lemma_read_u32_back(input);
    let (id, rest0) = read_u32(input)->Ok_0;
    lemma_read_field_back(rest0);
    let (key, rest1) = read_field(rest0)->Ok_0;
    lemma_read_field_back(rest1);
    let (signature, rest2) = read_field(rest1)->Ok_0;
    lemma_join4(bytes::be_u32(id), field(key), field(signature), rest2);
}

/// A bundle is read back from the frame that was written for it.
pub proof fn law_bundle_round_trip(value: BundleView)
    requires
        bundle_fits(value),
    ensures
        bundle_decoding(bundle_frame(value)) == Ok::<BundleView, SignalError>(value),
{
    let end = Seq::<u8>::empty();
    let opening = seq![FORMAT_VERSION, FRAME_BUNDLE];
    let signed = numbered_key(
        value.signed_pre_key_id,
        value.signed_pre_key_public,
        value.signed_pre_key_signature,
    );
    let kyber = numbered_key(
        value.kyber_pre_key_id,
        value.kyber_pre_key_public,
        value.kyber_pre_key_signature,
    );
    let identity = field(value.identity_key);
    let tail3 = identity + end;
    let tail2 = kyber + tail3;
    let tail1 = signed + tail2;
    let tail0 = pre_key_bytes(value.pre_key) + tail1;
    lemma_join7(
        opening,
        owner_bytes(value),
        pre_key_bytes(value.pre_key),
        signed,
        kyber,
        identity,
        end,
    );
    lemma_join_empty(bundle_frame(value));
    lemma_read_frame(FRAME_BUNDLE, owner_bytes(value) + tail0);
    lemma_read_owner(value, tail0);
    lemma_read_pre_key(value.pre_key, tail1);
    lemma_read_numbered_key(
        value.signed_pre_key_id,
        value.signed_pre_key_public,
        value.signed_pre_key_signature,
        tail2,
    );
    lemma_read_numbered_key(
        value.kyber_pre_key_id,
        value.kyber_pre_key_public,
        value.kyber_pre_key_signature,
        tail3,
    );
    lemma_read_field(value.identity_key, end);
}

/// The flag in front of the optional prekey of an accepted bundle.
pub open spec fn pre_key_flag(input: Seq<u8>) -> u8 {
    read_byte(read_owner(read_frame(input, FRAME_BUNDLE)->Ok_0)->Ok_0.1)->Ok_0.0
}

/// An accepted bundle frame whose prekey flag is 0 or 1 is the one that is
/// written for its contents.
pub proof fn law_bundle_canonical(input: Seq<u8>)
    requires
        bundle_decoding(input) is Ok,
        pre_key_flag(input) <= 1,
    ensures
        bundle_encoding(bundle_decoding(input)->Ok_0) == Ok::<Seq<u8>, SignalError>(input),
{
    let value = bundle_decoding(input)->Ok_0;
    lemma_read_frame_back(input, FRAME_BUNDLE);
    let rest0 = read_frame(input, FRAME_BUNDLE)->Ok_0;
    lemma_read_owner_back(rest0, value);
    let rest1 = read_owner(rest0)->Ok_0.1;
    lemma_read_pre_key_back(rest1);
    let rest2 = read_pre_key(rest1)->Ok_0.1;
    lemma_read_numbered_key_back(rest2);
    let rest3 = read_numbered_key(rest2)->Ok_0.1;
    lemma_read_numbered_key_back(rest3);
    let rest4 = read_numbered_key(rest3)->Ok_0.1;
    lemma_read_field_back(rest4);
    let rest5 = read_field(rest4)->Ok_0.1;
    lemma_join7(
        seq![FORMAT_VERSION, FRAME_BUNDLE],
        owner_bytes(value),
        pre_key_bytes(value.pre_key),
        numbered_key(
            value.signed_pre_key_id,
            value.signed_pre_key_public,
            value.signed_pre_key_signature,
        ),
        numbered_key(
            value.kyber_pre_key_id,
            value.kyber_pre_key_public,
            value.kyber_pre_key_signature,
        ),
        field(value.identity_key),
        rest5,
    );
    assert(rest5 =~= Seq::empty());
    lemma_join_empty(bundle_frame(value));
}

// ---------------------------------------------------------------------------
// Recovery records
// ---------------------------------------------------------------------------

/// A signed, auditable statement that an identity was replaced. The old identity
/// signs the replacement bundle, so a recipient can accept it without silently
/// trusting an arbitrary new key.
#[derive(Clone, Debug, PartialEq, Eq)]
pub struct IdentityRecoveryRecord {
    pub old_identity: Vec<u8>,
    pub new_bundle: SignalPreKeyBundle,
    pub effective_at: u64,
    pub confirmation: bool,
    pub signature: Vec<u8>,
}

/// The contents of an [`IdentityRecoveryRecord`].
#[verifier::ext_equal]
pub struct RecoveryView {
    pub old_identity: Seq<u8>,
    pub new_bundle: BundleView,
    pub effective_at: u64,
    pub confirmation: bool,
    pub signature: Seq<u8>,
}

impl View for IdentityRecoveryRecord {
    type V = RecoveryView;

    open spec fn view(&self) -> RecoveryView {
        RecoveryView {
            old_identity: self.old_identity@,
            new_bundle: self.new_bundle@,
            effective_at: self.effective_at,
            confirmation: self.confirmation,
            signature: self.signature@,
        }
    }
}

/// A confirmation as a byte.
pub open spec fn confirmation_byte(value: bool) -> u8 {
    if value {
        1
    } else {
        0
    }
}

/// The part of a recovery record that the old identity signs.
pub open spec fn recovery_payload(value: RecoveryView) -> Seq<u8> {
    seq![FORMAT_VERSION, FRAME_RECOVERY] + field(value.old_identity) + field(
        bundle_frame(value.new_bundle),
    ) + bytes::be_u64(value.effective_at) + seq![confirmation_byte(value.confirmation)]
}

/// Whether the signed part of a recovery record has a frame.
pub open spec fn recovery_fits(value: RecoveryView) -> bool {
    bundle_fits(value.new_bundle) && fits(value.old_identity) && fits(
        bundle_frame(value.new_bundle),
    )
}

/// What writing a recovery record gives.
pub open spec fn recovery_encoding(value: RecoveryView) -> Result<Seq<u8>, SignalError> {
    if recovery_fits(value) && fits(value.signature) {
        Ok(recovery_payload(value) + field(value.signature))
    } else {
        Err(SignalError::FieldTooLarge)
    }
}

/// Reads the bundle inside a recovery record.
pub open spec fn read_inner_bundle(bytes: Seq<u8>) -> Read<BundleView> {
    match read_field(bytes) {
        Err(error) => Err(error),
        Ok((frame, rest)) => match bundle_decoding(frame) {
            Err(error) => Err(error),
            Ok(bundle) => Ok((bundle, rest)),
        },
    }
}

/// Reads a confirmation, which is exactly 0 or 1.
pub open spec fn read_confirmation(bytes: Seq<u8>) -> Read<bool> {
    match read_byte(bytes) {
        Err(error) => Err(error),
        Ok((value, rest)) => if value == 0 {
            Ok((false, rest))
        } else if value == 1 {
            Ok((true, rest))
        } else {
            Err(SignalError::InvalidRecoveryConfirmation)
        },
    }
}

/// What reading a recovery record gives.
pub open spec fn recovery_decoding(input: Seq<u8>) -> Result<RecoveryView, SignalError> {
    match read_frame(input, FRAME_RECOVERY) {
        Err(error) => Err(error),
        Ok(rest) => match read_field(rest) {
            Err(error) => Err(error),
            Ok((old_identity, rest)) => match read_inner_bundle(rest) {
                Err(error) => Err(error),
                Ok((new_bundle, rest)) => match read_u64(rest) {
                    Err(error) => Err(error),
                    Ok((effective_at, rest)) => match read_confirmation(rest) {
                        Err(error) => Err(error),
                        Ok((confirmation, rest)) => match read_field(rest) {
                            Err(error) => Err(error),
                            Ok((signature, rest)) => if rest.len() != 0 {
                                Err(SignalError::TrailingRecoveryBytes)
                            } else {
                                Ok(
                                    RecoveryView {
                                        old_identity,
                                        new_bundle,
                                        effective_at,
                                        confirmation,
                                        signature,
                                    },
                                )
                            },
                        },
                    },
                },
            },
        },
    }
}

impl IdentityRecoveryRecord {
    /// The bytes that the old identity signs.
    pub fn payload(&self) -> (result: Result<Vec<u8>, SignalError>)
        ensures
            if recovery_fits(self@) {
                result matches Ok(payload) && payload@ == recovery_payload(self@)
            } else {
                result == Err::<Vec<u8>, SignalError>(SignalError::FieldTooLarge)
            },
    {
        let bundle = self.new_bundle.encode()?;
        let mut payload: Vec<u8> = Vec::new();
        payload.push(FORMAT_VERSION);
        payload.push(FRAME_RECOVERY);
        assert(payload@ =~= seq![FORMAT_VERSION, FRAME_RECOVERY]);
        put_bytes(&mut payload, self.old_identity.as_slice())?;
        put_bytes(&mut payload, bundle.as_slice())?;
        push_u64(&mut payload, self.effective_at);
        let ghost before = payload@;
        payload.push(
            if self.confirmation {
                1
            } else {
                0
            },
        );
        assert(payload@ =~= before + seq![confirmation_byte(self.confirmation)]);
        Ok(payload)
    }

    /// Writes the record.
    pub fn encode(&self) -> (result: Result<Vec<u8>, SignalError>)
        ensures
            match recovery_encoding(self@) {
                Ok(frame) => result matches Ok(output) && output@ == frame,
                Err(error) => result == Err::<Vec<u8>, SignalError>(error),
            },
    {
        let mut output = self.payload()?;
        put_bytes(&mut output, self.signature.as_slice())?;
        Ok(output)
    }

    /// Reads a record.
    pub fn decode(input: &[u8]) -> (result: Result<IdentityRecoveryRecord, SignalError>)
        ensures
            match recovery_decoding(input@) {
                Ok(value) => result matches Ok(record) && record@ == value,
                Err(error) => result == Err::<IdentityRecoveryRecord, SignalError>(error),
            },
    {
        let mut reader = BundleReader { input, offset: 0 };
        assert(input@.skip(0) =~= input@);
        reader.expect_frame(FRAME_RECOVERY)?;
        let old_identity = reader.bytes()?;
        let frame = reader.bytes()?;
        let new_bundle = SignalPreKeyBundle::decode(frame.as_slice())?;
        let effective_at: u64 = reader.u64()?;
        let confirmation = match reader.byte()? {
            0 => false,
            1 => true,
            _ => {
                return Err(SignalError::InvalidRecoveryConfirmation);
            },
        };
        let signature = reader.bytes()?;
        if reader.offset != input.len() {
            return Err(SignalError::TrailingRecoveryBytes);
        }
        Ok(
            IdentityRecoveryRecord {
                old_identity,
                new_bundle,
                effective_at,
                confirmation,
                signature,
            },
        )
    }

    /// The fingerprint of the identity that was replaced.
    pub fn old_fingerprint(&self) -> (fingerprint: String)
        ensures
            fingerprint@ == text::hex(self@.old_identity),
    {
        identity_fingerprint(self.old_identity.as_slice())
    }

    /// The fingerprint of the identity that takes its place.
    pub fn new_fingerprint(&self) -> (fingerprint: String)
        ensures
            fingerprint@ == text::hex(self@.new_bundle.identity_key),
    {
        self.new_bundle.fingerprint()
    }
}

/// A recovery record is read back from the frame that was written for it.
pub proof fn law_recovery_round_trip(value: RecoveryView)
    requires
        recovery_encoding(value) is Ok,
    ensures
        recovery_decoding(recovery_encoding(value)->Ok_0) == Ok::<RecoveryView, SignalError>(value),
{
    let end = Seq::<u8>::empty();
    let opening = seq![FORMAT_VERSION, FRAME_RECOVERY];
    let old = field(value.old_identity);
    let bundle = field(bundle_frame(value.new_bundle));
    let time = bytes::be_u64(value.effective_at);
    let confirmation = seq![confirmation_byte(value.confirmation)];
    let signature = field(value.signature);
    let tail3 = signature + end;
    let tail2 = confirmation + tail3;
    let tail1 = time + tail2;
    let tail0 = bundle + tail1;
    lemma_join7(opening, old, bundle, time, confirmation, signature, end);
    lemma_join_empty(recovery_payload(value) + signature);
    lemma_read_frame(FRAME_RECOVERY, old + tail0);
    lemma_read_field(value.old_identity, tail0);
    lemma_read_field(bundle_frame(value.new_bundle), tail1);
    law_bundle_round_trip(value.new_bundle);
    lemma_read_u64(value.effective_at, tail2);
    lemma_read_byte(confirmation_byte(value.confirmation), tail3);
    lemma_read_field(value.signature, end);
}

/// The signature covers everything else in the record: two records with the same
/// signed part differ in nothing but the signature.
pub proof fn law_recovery_payload_covers(left: RecoveryView, right: RecoveryView)
    requires
        recovery_fits(left),
        recovery_fits(right),
        recovery_payload(left) == recovery_payload(right),
    ensures
        left.old_identity == right.old_identity,
        left.new_bundle == right.new_bundle,
        left.effective_at == right.effective_at,
        left.confirmation == right.confirmation,
{
    let none = Seq::<u8>::empty();
    let left_bare = RecoveryView { signature: none, ..left };
    let right_bare = RecoveryView { signature: none, ..right };
    law_recovery_round_trip(left_bare);
    law_recovery_round_trip(right_bare);
    assert(recovery_payload(left_bare) == recovery_payload(left));
    assert(recovery_payload(right_bare) == recovery_payload(right));
    assert(left_bare == right_bare);
}

/// How many bytes a one-time prekey takes.
pub open spec fn pre_key_length(value: Option<(u32, Seq<u8>)>) -> int {
    match value {
        Some((_, key)) => 9int + key.len(),
        None => 1,
    }
}

/// A one-time prekey stands in a frame from a position on: a one, its number and the
/// key behind its length, or a zero.
pub open spec fn pre_key_at(frame: Seq<u8>, at: int, value: Option<(u32, Seq<u8>)>) -> bool {
    match value {
        Some((id, key)) => frame[at] == 1 && bytes::number_at(frame, at + 1) == id
            && bytes::measured_at(frame, at + 5, key),
        None => frame[at] == 0,
    }
}

/// A signed key stands in a frame from a position on: its number, the key and the
/// signature, each behind its length.
pub open spec fn signed_key_at(
    frame: Seq<u8>,
    at: int,
    id: u32,
    key: Seq<u8>,
    signature: Seq<u8>,
) -> bool {
    &&& bytes::number_at(frame, at) == id
    &&& bytes::measured_at(frame, at + 4, key)
    &&& bytes::measured_at(frame, at + 8 + key.len(), signature)
}

proof fn lemma_shift(front: Seq<u8>, piece: Seq<u8>, rest: Seq<u8>)
    ensures
        front + (piece + rest) == (front + piece) + rest,
        (front + piece).len() == front.len() + piece.len(),
{
    assert(front + (piece + rest) =~= (front + piece) + rest);
}

proof fn lemma_pre_key_stands(
    whole: Seq<u8>,
    front: Seq<u8>,
    value: Option<(u32, Seq<u8>)>,
    rest: Seq<u8>,
)
    requires
        whole == front + (pre_key_bytes(value) + rest),
        value matches Some((_, key)) ==> key.len() <= 16_384,
    ensures
        pre_key_at(whole, front.len() as int, value),
        pre_key_bytes(value).len() == pre_key_length(value),
{
    if let Some((id, key)) = value {
        let flag = seq![1u8];
        let number = bytes::be_u32(id);
        let front1 = front + flag;
        lemma_join4(flag, number, field(key), rest);
        lemma_shift(front, flag, number + (field(key) + rest));
        bytes::lemma_number_stands(whole, front1, id, field(key) + rest);
        lemma_shift(front1, number, field(key) + rest);
        bytes::lemma_measured(whole, front1 + number, key, rest);
        assert(whole[front.len() as int] == 1);
    } else {
        assert(whole[front.len() as int] == 0);
    }
}

proof fn lemma_signed_key_stands(
    whole: Seq<u8>,
    front: Seq<u8>,
    id: u32,
    key: Seq<u8>,
    signature: Seq<u8>,
    rest: Seq<u8>,
)
    requires
        whole == front + (numbered_key(id, key, signature) + rest),
        key.len() <= 16_384,
        signature.len() <= 16_384,
    ensures
        signed_key_at(whole, front.len() as int, id, key, signature),
        numbered_key(id, key, signature).len() == 12 + key.len() + signature.len(),
{
    let number = bytes::be_u32(id);
    let tail = field(signature) + rest;
    lemma_join4(number, field(key), field(signature), rest);
    bytes::lemma_number_stands(whole, front, id, field(key) + tail);
    lemma_shift(front, number, field(key) + tail);
    bytes::lemma_measured(whole, front + number, key, tail);
    lemma_shift(front + number, field(key), tail);
    bytes::lemma_measured(whole, front + number + field(key), signature, rest);
}

proof fn lemma_begins(first: u8, second: u8, rest: Seq<u8>)
    ensures
        (seq![first, second] + rest)[0] == first,
        (seq![first, second] + rest)[1] == second,
{
}

proof fn lemma_byte_stands(front: Seq<u8>, byte: u8, rest: Seq<u8>)
    ensures
        (front + (seq![byte] + rest))[front.len() as int] == byte,
{
}

proof fn lemma_empty_join(a: Seq<u8>)
    ensures
        Seq::<u8>::empty() + a == a,
{
    assert(Seq::<u8>::empty() + a =~= a);
}

/// A bundle goes out as the version of the format and the mark of a bundle, the name,
/// the numbers of the device and of its registration, the one-time prekey, the signed
/// prekey, the post-quantum prekey and the identity. No part of it has more than
/// sixteen kibibytes.
#[verifier::rlimit(60)]
pub proof fn law_bundle_is_framed(value: BundleView)
    ensures
        bundle_encoding(value) is Ok <==> {
            &&& encode_utf8(value.name).len() <= 16_384
            &&& value.pre_key matches Some((_, key)) ==> key.len() <= 16_384
            &&& value.signed_pre_key_public.len() <= 16_384
            &&& value.signed_pre_key_signature.len() <= 16_384
            &&& value.kyber_pre_key_public.len() <= 16_384
            &&& value.kyber_pre_key_signature.len() <= 16_384
            &&& value.identity_key.len() <= 16_384
        },
        bundle_encoding(value) matches Err(error) ==> error == SignalError::FieldTooLarge,
        bundle_encoding(value) matches Ok(frame) ==> {
            let name = encode_utf8(value.name);
            let device_at = 6int + name.len();
            let pre_key = device_at + 8;
            let signed_at = pre_key + pre_key_length(value.pre_key);
            let kyber_at = signed_at + 12 + value.signed_pre_key_public.len()
                + value.signed_pre_key_signature.len();
            let identity_at = kyber_at + 12 + value.kyber_pre_key_public.len()
                + value.kyber_pre_key_signature.len();
            &&& frame[0] == 1 && frame[1] == 2
            &&& bytes::measured_at(frame, 2, name)
            &&& bytes::number_at(frame, device_at) == value.device_id
            &&& bytes::number_at(frame, device_at + 4) == value.registration_id
            &&& pre_key_at(frame, pre_key, value.pre_key)
            &&& signed_key_at(
                frame,
                signed_at,
                value.signed_pre_key_id,
                value.signed_pre_key_public,
                value.signed_pre_key_signature,
            )
            &&& signed_key_at(
                frame,
                kyber_at,
                value.kyber_pre_key_id,
                value.kyber_pre_key_public,
                value.kyber_pre_key_signature,
            )
            &&& bytes::measured_at(frame, identity_at, value.identity_key)
            &&& frame.len() == identity_at + 4 + value.identity_key.len()
        },
{
    if let Ok(frame) = bundle_encoding(value) {
        let none = Seq::<u8>::empty();
        let opening = seq![FORMAT_VERSION, FRAME_BUNDLE];
        let name = field(encode_utf8(value.name));
        let device = bytes::be_u32(value.device_id);
        let registration = bytes::be_u32(value.registration_id);
        let pre_key = pre_key_bytes(value.pre_key);
        let signed = numbered_key(
            value.signed_pre_key_id,
            value.signed_pre_key_public,
            value.signed_pre_key_signature,
        );
        let kyber = numbered_key(
            value.kyber_pre_key_id,
            value.kyber_pre_key_public,
            value.kyber_pre_key_signature,
        );
        let identity = field(value.identity_key);
        let tail3 = identity + none;
        let tail2 = kyber + tail3;
        let tail1 = signed + tail2;
        let tail0 = pre_key + tail1;
        lemma_join7(opening, owner_bytes(value), pre_key, signed, kyber, identity, none);
        lemma_join_empty(frame);
        lemma_join4(name, device, registration, tail0);
        assert(frame == opening + (name + (device + (registration + tail0))));
        lemma_begins(FORMAT_VERSION, FRAME_BUNDLE, name + (device + (registration + tail0)));
        bytes::lemma_measured(
            frame,
            opening,
            encode_utf8(value.name),
            device + (registration + tail0),
        );
        let front0 = opening + name;
        lemma_shift(opening, name, device + (registration + tail0));
        bytes::lemma_number_stands(frame, front0, value.device_id, registration + tail0);
        let front1 = front0 + device;
        lemma_shift(front0, device, registration + tail0);
        bytes::lemma_number_stands(frame, front1, value.registration_id, tail0);
        let front2 = front1 + registration;
        lemma_shift(front1, registration, tail0);
        lemma_pre_key_stands(frame, front2, value.pre_key, tail1);
        let front3 = front2 + pre_key;
        lemma_shift(front2, pre_key, tail1);
        lemma_signed_key_stands(
            frame,
            front3,
            value.signed_pre_key_id,
            value.signed_pre_key_public,
            value.signed_pre_key_signature,
            tail2,
        );
        let front4 = front3 + signed;
        lemma_shift(front3, signed, tail2);
        lemma_signed_key_stands(
            frame,
            front4,
            value.kyber_pre_key_id,
            value.kyber_pre_key_public,
            value.kyber_pre_key_signature,
            tail3,
        );
        let front5 = front4 + kyber;
        lemma_shift(front4, kyber, tail3);
        bytes::lemma_measured(frame, front5, value.identity_key, none);
        lemma_shift(front5, identity, none);
    }
}

/// What is signed of a recovery are the version of the format and the mark of a
/// recovery, the old identity, the whole new bundle, when it holds and whether it was
/// confirmed. What goes out is that and the signature behind it.
#[verifier::rlimit(60)]
pub proof fn law_recovery_is_framed(value: RecoveryView)
    requires
        recovery_encoding(value) is Ok,
    ensures
        ({
            let frame = recovery_encoding(value)->Ok_0;
            let payload = recovery_payload(value);
            let bundle = bundle_encoding(value.new_bundle)->Ok_0;
            let bundle_at = 6int + value.old_identity.len();
            let time_at = bundle_at + 4 + bundle.len();
            &&& bundle_encoding(value.new_bundle) is Ok
            &&& payload[0] == 1 && payload[1] == 1
            &&& bytes::measured_at(payload, 2, value.old_identity)
            &&& bytes::measured_at(payload, bundle_at, bundle)
            &&& bytes::long_number_at(payload, time_at) == value.effective_at
            &&& payload[time_at + 8] == (if value.confirmation {
                1u8
            } else {
                0u8
            })
            &&& payload.len() == time_at + 9
            &&& bytes::stands_at(frame, 0, payload)
            &&& bytes::measured_at(frame, time_at + 9, value.signature)
            &&& frame.len() == time_at + 13 + value.signature.len()
        }),
{
    let frame = recovery_encoding(value)->Ok_0;
    let payload = recovery_payload(value);
    let none = Seq::<u8>::empty();
    let opening = seq![FORMAT_VERSION, FRAME_RECOVERY];
    let old = field(value.old_identity);
    let bundle = field(bundle_frame(value.new_bundle));
    let time = bytes::be_u64(value.effective_at);
    let confirmation = seq![confirmation_byte(value.confirmation)];
    let signature = field(value.signature);
    bytes::law_long_numbers_are_big_endian(value.effective_at, time);
    lemma_join7(opening, old, bundle, time, confirmation, none, none);
    lemma_join_empty(payload);
    let tail2 = confirmation + (none + none);
    let tail1 = time + tail2;
    let tail0 = bundle + tail1;
    assert(payload == opening + (old + tail0));
    lemma_begins(FORMAT_VERSION, FRAME_RECOVERY, old + tail0);
    bytes::lemma_measured(payload, opening, value.old_identity, tail0);
    let front0 = opening + old;
    lemma_shift(opening, old, tail0);
    bytes::lemma_measured(payload, front0, bundle_frame(value.new_bundle), tail1);
    let front1 = front0 + bundle;
    lemma_shift(front0, bundle, tail1);
    bytes::lemma_long_number_stands(payload, front1, value.effective_at, tail2);
    let front2 = front1 + time;
    lemma_shift(front1, time, tail2);
    lemma_byte_stands(front2, confirmation_byte(value.confirmation), none + none);
    lemma_shift(none, payload, signature);
    lemma_empty_join(payload);
    bytes::lemma_stands(frame, none, payload, signature);
    lemma_join_empty(signature);
    bytes::lemma_measured(frame, payload, value.signature, none);
}

/// What is no frame of its kind is refused before anything in it is read.
pub proof fn law_bundles_are_told_apart(input: Seq<u8>)
    requires
        input.len() >= 2,
    ensures
        !(input[0] == 1 && input[1] == 2) ==> bundle_decoding(input) == Err::<
            BundleView,
            SignalError,
        >(SignalError::InvalidFrame),
        !(input[0] == 1 && input[1] == 1) ==> recovery_decoding(input) == Err::<
            RecoveryView,
            SignalError,
        >(SignalError::InvalidFrame),
{
    reveal(read_take);
    assert(input.subrange(0, 1)[0] == input[0]);
    assert(input.skip(1).subrange(0, 1)[0] == input[1]);
}

/// A bundle with something behind it is no bundle.
pub proof fn law_nothing_follows_a_bundle(value: BundleView, extra: Seq<u8>)
    requires
        bundle_encoding(value) is Ok,
        extra.len() > 0,
    ensures
        bundle_decoding(bundle_encoding(value)->Ok_0 + extra) == Err::<BundleView, SignalError>(
            SignalError::TrailingBundleBytes,
        ),
{
    let opening = seq![FORMAT_VERSION, FRAME_BUNDLE];
    let signed = numbered_key(
        value.signed_pre_key_id,
        value.signed_pre_key_public,
        value.signed_pre_key_signature,
    );
    let kyber = numbered_key(
        value.kyber_pre_key_id,
        value.kyber_pre_key_public,
        value.kyber_pre_key_signature,
    );
    let identity = field(value.identity_key);
    let tail3 = identity + extra;
    let tail2 = kyber + tail3;
    let tail1 = signed + tail2;
    let tail0 = pre_key_bytes(value.pre_key) + tail1;
    lemma_join7(
        opening,
        owner_bytes(value),
        pre_key_bytes(value.pre_key),
        signed,
        kyber,
        identity,
        extra,
    );
    lemma_read_frame(FRAME_BUNDLE, owner_bytes(value) + tail0);
    lemma_read_owner(value, tail0);
    lemma_read_pre_key(value.pre_key, tail1);
    lemma_read_numbered_key(
        value.signed_pre_key_id,
        value.signed_pre_key_public,
        value.signed_pre_key_signature,
        tail2,
    );
    lemma_read_numbered_key(
        value.kyber_pre_key_id,
        value.kyber_pre_key_public,
        value.kyber_pre_key_signature,
        tail3,
    );
    lemma_read_field(value.identity_key, extra);
}

} // verus!
