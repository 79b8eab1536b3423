//! Auth headers: who a node is, and the cluster's signature on it.

use vstd::prelude::*;
use vstd::std_specs::convert::{FromSpecImpl, TryFromSpecImpl};

use crate::bytes::{array32, copy_of};
use crate::hex_text::{
    decode, encode, hex_bytes, hex_chars, hex_error, is_hex, lemma_hex_round_trip,
};
use crate::node_id::{NodeId, MAX_NODE_ID_LEN};
use crate::noise::TransportPublicKey;
use crate::secret::SecretBytes;
use crate::show::{text_written, write_text};
use crate::sign::{
    ed25519_public, ed25519_signature, ed25519_verifies, lemma_signed_record,
    lemma_verified_payload, signed_record, signs_openly, verified_payload, SignatureSigningKey, SignatureValidationErr,
    SignatureVerificationKey, SIGNATURE_LEN,
};
use crate::tlv::{
    first_value, fits, frame_bytes, frame_of_three, frame_of_two, lemma_frame_injective,
    parse_frame, Fields,
};

verus! {

pub const TAG_NODE_ID: u16 = 1;

pub const TAG_PUBLIC_KEY: u16 = 2;

pub const TAG_ROLE: u16 = 3;

/// An authentication failure during the handshake: a bad cluster signature, a static
/// key other than the one declared in the auth header, or a peer other than the one
/// that the caller expected.
#[allow(inconsistent_fields)]
#[derive(Debug, PartialEq, Eq)]
pub enum BadAuth {
    Signature(SignatureValidationErr),
    PublicKeyMismatch { expected: TransportPublicKey, actual: TransportPublicKey },
    NodeIdMismatch { expected: NodeId, actual: NodeId },
}

/// Returned when a hex string cannot be decoded into a [`SignedAuthHeader`], or bytes
/// into an [`AuthHeader`].
#[derive(Debug, Clone, Copy, PartialEq, Eq, Structural)]
pub struct MalformedAuthHeader;

/// What an auth header says.
pub ghost struct HeaderView {
    pub node_id: Seq<u8>,
    pub role: Option<Seq<u8>>,
    pub public_key: Seq<u8>,
}

/// The bytes of an optional byte string.
pub open spec fn role_view(role: Option<Vec<u8>>) -> Option<Seq<u8>> {
    match role {
        Some(bytes) => Some(bytes@),
        None => None,
    }
}

/// The fields that an auth header is written as: the role only where there is one.
pub open spec fn header_fields(header: HeaderView) -> Fields {
    let identity = seq![(TAG_NODE_ID, header.node_id), (TAG_PUBLIC_KEY, header.public_key)];
    match header.role {
        Some(role) => identity.push((TAG_ROLE, role)),
        None => identity,
    }
}

/// What a list of fields says: it needs a node id of legal length and a public key of 32
/// bytes. Other tags are ignored, and so is a second field with the same tag.
pub open spec fn header_of_fields(fields: Fields) -> Option<HeaderView> {
    match (first_value(fields, TAG_NODE_ID), first_value(fields, TAG_PUBLIC_KEY)) {
        (Some(node_id), Some(public_key)) => if node_id.len() <= MAX_NODE_ID_LEN
            && public_key.len() == 32 {
            Some(HeaderView { node_id, role: first_value(fields, TAG_ROLE), public_key })
        } else {
            None
        },
        _ => None,
    }
}

/// The auth header that bytes are: those of a frame whose fields are an auth header.
pub open spec fn decoded_header(data: Seq<u8>) -> Option<HeaderView> {
    if exists|fields: Fields| fits(fields) && data == #[trigger] frame_bytes(fields) {
        header_of_fields(
            choose|fields: Fields| fits(fields) && data == #[trigger] frame_bytes(fields),
        )
    } else {
        None
    }
}

/// What a signed auth header proves to the holder of a verification key.
pub open spec fn verified_header(key: Seq<u8>, data: Seq<u8>) -> Result<
    HeaderView,
    SignatureValidationErr,
> {
    match verified_payload(key, data) {
        Some(payload) => match decoded_header(payload) {
            Some(header) => Ok(header),
            None => Err(SignatureValidationErr::MalformedRecord),
        },
        None => if data.len() < SIGNATURE_LEN {
            Err(SignatureValidationErr::MalformedRecord)
        } else {
            Err(SignatureValidationErr::BadSignature)
        },
    }
}

/// The auth header of a frame is what its fields say.
proof fn lemma_decoded(fields: Fields)
    requires
        fits(fields),
    ensures
        decoded_header(frame_bytes(fields)) == header_of_fields(fields),
{
    let data = frame_bytes(fields);
    let found = choose|other: Fields| fits(other) && data == #[trigger] frame_bytes(other);
    assert(fits(found) && data == frame_bytes(found));
    lemma_frame_injective(found, fields);
}

/// An auth header reads back from the bytes that it is written as, whatever its node
/// id, role and public key.
pub proof fn lemma_header_round_trip(header: HeaderView)
    requires
        header.node_id.len() <= MAX_NODE_ID_LEN,
        header.public_key.len() == 32,
        header.role matches Some(role) ==> role.len() < 0x1_0000_0000,
    ensures
        decoded_header(frame_bytes(header_fields(header))) == Some(header),
{
    let fields = header_fields(header);
    reveal_with_fuel(first_value, 4);
    lemma_decoded(fields);
    assert(fields.skip(1)[0] == fields[1]);
    match header.role {
        Some(role) => {
            assert(fields.skip(1).skip(1)[0] == fields[2]);
        },
        None => {
            assert(fields.skip(1).skip(1).len() == 0);
        },
    }
}

/// Details returned when a connection is established.
///
/// The caller makes appropriate checks on these details before trusting the connection.
/// During discovery this may be how the peer's identity is first learned; when
/// reconnecting the caller should verify it matches the expected peer.
#[must_use]
#[derive(Debug, PartialEq)]
pub struct AuthDetails {
    pub node_id: NodeId,
    pub role: Option<Vec<u8>>,
}

impl AuthDetails {
    /// Verify that the authenticated peer's node id matches `expected`.
    pub fn check_node_id<N: Into<NodeId>>(&self, expected: N) -> (r: Result<(), BadAuth>)
        ensures
            exists|wanted: NodeId|
                {
                    &&& #[trigger] call_ensures(N::into, (expected,), wanted)
                    &&& match r {
                        Ok(()) => self.node_id@ == wanted@,
                        Err(BadAuth::NodeIdMismatch { expected, actual }) => {
                            &&& self.node_id@ != wanted@
                            &&& expected@ == wanted@
                            &&& actual@ == self.node_id@
                        },
                        Err(_) => false,
                    }
                },
    {
        let wanted: NodeId = expected.into();
        if self.node_id == wanted {
            Ok(())
        } else {
            Err(BadAuth::NodeIdMismatch { expected: wanted, actual: self.node_id.clone() })
        }
    }
}

impl From<AuthHeader> for AuthDetails {
    fn from(value: AuthHeader) -> (details: Self)
        ensures
            details.node_id@ == value@.node_id,
            role_view(details.role) == value@.role,
    {
        AuthDetails { node_id: value.node_id, role: value.role }
    }
}

impl FromSpecImpl<AuthHeader> for AuthDetails {
    open spec fn obeys_from_spec() -> bool {
        false
    }

    open spec fn from_spec(value: AuthHeader) -> Self {
        arbitrary()
    }
}

/// The identity and transport public key of a node, used to authenticate handshakes.
///
/// Built by the node operator and signed with the cluster's [`SignatureSigningKey`] to
/// produce a [`SignedAuthHeader`], which is carried as a payload in the handshake. The
/// receiving peer verifies the signature against the cluster's
/// [`SignatureVerificationKey`] and confirms that the declared public key matches the
/// static key of the handshake to rule out header replay.
///
/// Written as a frame (tag 1 is the node id, tag 2 the public key, tag 3 the role).
#[derive(Debug, PartialEq, Eq)]
pub struct AuthHeader {
    node_id: NodeId,
    role: Option<Vec<u8>>,
    public_key: TransportPublicKey,
}

impl View for AuthHeader {
    type V = HeaderView;

    closed spec fn view(&self) -> HeaderView {
        HeaderView {
            node_id: self.node_id@,
            role: role_view(self.role),
            public_key: self.public_key@,
        }
    }
}

impl AuthHeader {
    pub fn new<N: Into<NodeId>>(
        node_id: N,
        role: Option<&[u8]>,
        public_key: &TransportPublicKey,
    ) -> (header: Self)
        ensures
            exists|id: NodeId|
                {
                    &&& #[trigger] call_ensures(N::into, (node_id,), id)
                    &&& header@ == (HeaderView {
                        node_id: id@,
                        role: match role {
                            Some(bytes) => Some(bytes@),
                            None => None,
                        },
                        public_key: public_key@,
                    })
                },
    {
        AuthHeader {
            node_id: node_id.into(),
            role: match role {
                Some(bytes) => Some(copy_of(bytes)),
                None => None,
            },
            public_key: public_key.clone(),
        }
    }

    /// Check that `key` is the public key that the header declares.
    pub fn validate_public_key(&self, key: &TransportPublicKey) -> (r: Result<(), BadAuth>)
        ensures
            match r {
                Ok(()) => key@ == self@.public_key,
                Err(BadAuth::PublicKeyMismatch { expected, actual }) => {
                    &&& key@ != self@.public_key
                    &&& expected@ == self@.public_key
                    &&& actual@ == key@
                },
                Err(_) => false,
            },
    {
        if self.public_key == *key {
            Ok(())
        } else {
            Err(
                BadAuth::PublicKeyMismatch {
                    actual: key.clone(),
                    expected: self.public_key.clone(),
                },
            )
        }
    }

    /// The bytes of the header.
    pub fn to_yatlv(&self) -> (data: Vec<u8>)
        ensures
            data@ == frame_bytes(header_fields(self@)),
            self@.node_id.len() <= MAX_NODE_ID_LEN,
            self@.public_key.len() == 32,
    {
        let node_id = self.node_id.as_bytes();
        let public_key = self.public_key.as_bytes().as_slice();
        match &self.role {
            Some(role) => {
                let data = frame_of_three(
                    TAG_NODE_ID,
                    node_id,
                    TAG_PUBLIC_KEY,
                    public_key,
                    TAG_ROLE,
                    role.as_slice(),
                );
                assert(header_fields(self@) =~= seq![
                    (TAG_NODE_ID, node_id@),
                    (TAG_PUBLIC_KEY, public_key@),
                    (TAG_ROLE, role@),
                ]);
                data
            },
            None => frame_of_two(TAG_NODE_ID, node_id, TAG_PUBLIC_KEY, public_key),
        }
    }

    /// The header that bytes are.
    pub fn from_yatlv(data: &[u8]) -> (r: Result<Self, MalformedAuthHeader>)
        ensures
            match r {
                Ok(header) => decoded_header(data@) == Some(header@),
                Err(_) => decoded_header(data@) is None,
            },
    {
        let parser = match parse_frame(data) {
            Ok(parser) => parser,
            Err(_) => return Err(MalformedAuthHeader),
        };
        proof {
            lemma_decoded(crate::tlv::parsed_fields(parser));
        }
        let node_id_bytes = match parser.get_data(TAG_NODE_ID) {
            Ok(bytes) => bytes,
            Err(_) => return Err(MalformedAuthHeader),
        };
        let public_key_bytes = match parser.get_data(TAG_PUBLIC_KEY) {
            Ok(bytes) => bytes,
            Err(_) => return Err(MalformedAuthHeader),
        };
        let role = match parser.get_optional_data(TAG_ROLE) {
            Some(bytes) => Some(copy_of(bytes)),
            None => None,
        };
        let node_id = match NodeId::try_from_bytes(copy_of(node_id_bytes)) {
            Ok(node_id) => node_id,
            Err(_) => return Err(MalformedAuthHeader),
        };
        let public_key = match array32(public_key_bytes) {
            Some(bytes) => TransportPublicKey::from(bytes),
            None => return Err(MalformedAuthHeader),
        };
        Ok(AuthHeader { node_id, role, public_key })
    }

    /// Sign the header with the cluster's key.
    ///
    /// Whoever holds the matching verification key reads this very header from it.
    pub fn sign(&self, signing_key: &SignatureSigningKey) -> (signed: SignedAuthHeader)
        ensures
            signed@ == signed_record(signing_key@, frame_bytes(header_fields(self@))),
            ed25519_signature(signing_key@, frame_bytes(header_fields(self@))).len()
                == SIGNATURE_LEN,
            (self@.role matches Some(role) ==> role.len() < 0x1_0000_0000) && signs_openly(
                signing_key@,
                frame_bytes(header_fields(self@)),
            ) ==> verified_header(ed25519_public(signing_key@), signed@) == Ok::<
                HeaderView,
                SignatureValidationErr,
            >(self@),
    {
        let payload = self.to_yatlv();
        let raw = signing_key.sign_raw(payload.as_slice());
        proof {
            if self@.role matches Some(role) ==> role.len() < 0x1_0000_0000 {
                lemma_header_round_trip(self@);
            }
        }
        SignedAuthHeader::from_bytes(raw)
    }
}

/// A signed [`AuthHeader`], carried as the payload of a handshake message.
///
/// The raw bytes are a credential: they are wiped from memory on drop and never appear
/// in diagnostics. They are not validated at construction; signature and identity checks
/// come with [`SignedAuthHeader::verify`].
pub struct SignedAuthHeader(SecretBytes);

impl View for SignedAuthHeader {
    type V = Seq<u8>;

    closed spec fn view(&self) -> Seq<u8> {
        self.0@
    }
}

impl SignedAuthHeader {
    /// The signed header with these raw bytes.
    pub fn from_bytes(bytes: Vec<u8>) -> (signed: Self)
        ensures
            signed@ == bytes@,
    {
        SignedAuthHeader(SecretBytes::new(bytes))
    }

    /// The signed header that pairs of hexadecimal digits spell, or what is wrong with the
    /// text.
    pub fn from_hex(text: &str) -> (r: Result<Self, hex::FromHexError>)
        ensures
            match r {
                Ok(signed) => is_hex(text@) && signed@ == hex_bytes(text@),
                Err(e) => !is_hex(text@) && e == hex_error(text@),
            },
    {
        match decode(text) {
            Ok(bytes) => Ok(SignedAuthHeader::from_bytes(bytes)),
            Err(e) => Err(e),
        }
    }

    /// Check the cluster's signature and read the header.
    pub fn verify(&self, key: &SignatureVerificationKey) -> (r: Result<AuthHeader, BadAuth>)
        ensures
            match verified_header(key@, self@) {
                Ok(header) => r is Ok && r->Ok_0@ == header,
                Err(e) => r == Err::<AuthHeader, BadAuth>(BadAuth::Signature(e)),
            },
    {
        Self::verify_raw(key, self.0.expose())
    }

    /// Verify raw bytes directly, for use when the signed header arrives as a handshake
    /// payload.
    pub fn verify_raw(key: &SignatureVerificationKey, data: &[u8]) -> (r: Result<
        AuthHeader,
        BadAuth,
    >)
        ensures
            match verified_header(key@, data@) {
                Ok(header) => r is Ok && r->Ok_0@ == header,
                Err(e) => r == Err::<AuthHeader, BadAuth>(BadAuth::Signature(e)),
            },
    {
        let payload = match key.verify_payload(data) {
            Ok(payload) => payload,
            Err(e) => return Err(BadAuth::Signature(e)),
        };
        match AuthHeader::from_yatlv(payload) {
            Ok(header) => Ok(header),
            Err(_) => Err(BadAuth::Signature(SignatureValidationErr::MalformedRecord)),
        }
    }

    /// The raw bytes.
    pub fn expose(&self) -> (bytes: &[u8])
        ensures
            bytes@ == self@,
    {
        self.0.expose()
    }

    /// The signed header as a lowercase hex string, for storing in a human-readable
    /// config file.
    pub fn expose_to_human_string(&self) -> (text: String)
        ensures
            text@ == hex_chars(self@),
    {
        encode(self.0.expose())
    }
}

impl core::fmt::Debug for SignedAuthHeader {
    /// Writes the type, and none of the bytes.
    fn fmt(&self, f: &mut core::fmt::Formatter<'_>) -> (r: Result<(), core::fmt::Error>)
        ensures
            r is Ok ==> text_written(*final(f)) == text_written(*old(f)) + 
                "SignedAuthHeader([redacted])"@,
    {
        write_text(f, "SignedAuthHeader([redacted])")
    }
}

impl Clone for SignedAuthHeader {
    fn clone(&self) -> (signed: Self)
        ensures
            signed@ == self@,
    {
        SignedAuthHeader(self.0.share())
    }
}

impl TryFrom<&str> for SignedAuthHeader {
    type Error = MalformedAuthHeader;

    /// Reads a signed header from pairs of hexadecimal digits.
    fn try_from(value: &str) -> (r: Result<Self, MalformedAuthHeader>)
        ensures
            match r {
                Ok(signed) => is_hex(value@) && signed@ == hex_bytes(value@),
                Err(_) => !is_hex(value@),
            },
    {
        match SignedAuthHeader::from_hex(value) {
            Ok(signed) => Ok(signed),
            Err(_) => Err(MalformedAuthHeader),
        }
    }
}

impl TryFromSpecImpl<&str> for SignedAuthHeader {
    open spec fn obeys_try_from_spec() -> bool {
        false
    }

    open spec fn try_from_spec(value: &str) -> Result<Self, MalformedAuthHeader> {
        arbitrary()
    }
}

/// A signed header survives being stored as text: its hex string reads back as the same
/// bytes, and so verifies as before.
pub proof fn lemma_signed_text_round_trip(signed: Seq<u8>, key: Seq<u8>)
    ensures
        is_hex(hex_chars(signed)),
        hex_bytes(hex_chars(signed)) == signed,
        verified_header(key, hex_bytes(hex_chars(signed))) == verified_header(key, signed),
{
    lemma_hex_round_trip(signed);
}

/// Different headers have different bytes, so that no signature on one is a signature on
/// another.
pub proof fn lemma_headers_differ(a: HeaderView, b: HeaderView)
    requires
        a.node_id.len() <= MAX_NODE_ID_LEN,
        b.node_id.len() <= MAX_NODE_ID_LEN,
        a.public_key.len() == 32,
        b.public_key.len() == 32,
        a.role matches Some(role) ==> role.len() < 0x1_0000_0000,
        b.role matches Some(role) ==> role.len() < 0x1_0000_0000,
        a != b,
    ensures
        frame_bytes(header_fields(a)) != frame_bytes(header_fields(b)),
{
    lemma_header_round_trip(a);
    lemma_header_round_trip(b);
}

/// What any key makes of a signed header: a key that accepts the signature reads the header
/// that was signed, and a key that does not refuses it as badly signed.
pub proof fn lemma_signed_header(key: Seq<u8>, secret: Seq<u8>, header: HeaderView)
    requires
        header.node_id.len() <= MAX_NODE_ID_LEN,
        header.public_key.len() == 32,
        header.role matches Some(role) ==> role.len() < 0x1_0000_0000,
        ed25519_signature(secret, frame_bytes(header_fields(header))).len() == SIGNATURE_LEN,
    ensures
        verified_header(key, signed_record(secret, frame_bytes(header_fields(header)))) == (
        if ed25519_verifies(
            key,
            frame_bytes(header_fields(header)),
            ed25519_signature(secret, frame_bytes(header_fields(header))),
        ) {
            Ok::<HeaderView, SignatureValidationErr>(header)
        } else {
            Err(SignatureValidationErr::BadSignature)
        }),
{
    lemma_signed_record(key, secret, frame_bytes(header_fields(header)));
    lemma_header_round_trip(header);
}

/// Different headers are different credentials, whoever signed them.
pub proof fn lemma_credentials_differ(
    a: HeaderView,
    a_secret: Seq<u8>,
    b: HeaderView,
    b_secret: Seq<u8>,
)
    requires
        a.node_id.len() <= MAX_NODE_ID_LEN,
        b.node_id.len() <= MAX_NODE_ID_LEN,
        a.public_key.len() == 32,
        b.public_key.len() == 32,
        a.role matches Some(role) ==> role.len() < 0x1_0000_0000,
        b.role matches Some(role) ==> role.len() < 0x1_0000_0000,
        ed25519_signature(a_secret, frame_bytes(header_fields(a))).len() == SIGNATURE_LEN,
        ed25519_signature(b_secret, frame_bytes(header_fields(b))).len() == SIGNATURE_LEN,
        a != b,
    ensures
        signed_record(a_secret, frame_bytes(header_fields(a))) != signed_record(
            b_secret,
            frame_bytes(header_fields(b)),
        ),
{
    let a_payload = frame_bytes(header_fields(a));
    let b_payload = frame_bytes(header_fields(b));
    lemma_headers_differ(a, b);
    lemma_signed_record(a_secret, a_secret, a_payload);
    lemma_signed_record(b_secret, b_secret, b_payload);
}

/// New tags can be added later: fields with other tags, wherever they stand, do not change
/// what a header says.
pub proof fn lemma_other_tags_are_ignored(before: Fields, tag: u16, value: Seq<u8>, after: Fields)
    requires
        tag != TAG_NODE_ID,
        tag != TAG_PUBLIC_KEY,
        tag != TAG_ROLE,
    ensures
        header_of_fields(before + seq![(tag, value)] + after) == header_of_fields(before + after),
{
    lemma_other_tag(before, tag, value, after, TAG_NODE_ID);
    lemma_other_tag(before, tag, value, after, TAG_PUBLIC_KEY);
    lemma_other_tag(before, tag, value, after, TAG_ROLE);
}

proof fn lemma_other_tag(before: Fields, tag: u16, value: Seq<u8>, after: Fields, wanted: u16)
    requires
        tag != wanted,
    ensures
        first_value(before + seq![(tag, value)] + after, wanted) == first_value(
            before + after,
            wanted,
        ),
    decreases before.len(),
{
    let with = before + seq![(tag, value)] + after;
    let without = before + after;
    if before.len() == 0 {
        assert(with.skip(1) =~= without);
    } else {
        assert(with.skip(1) =~= before.skip(1) + seq![(tag, value)] + after);
        assert(without.skip(1) =~= before.skip(1) + after);
        lemma_other_tag(before.skip(1), tag, value, after, wanted);
    }
}

/// What fields say: the first value of tag 1 is the node id, the first of tag 2 the public
/// key, the first of tag 3 the role, if there is any. They say nothing exactly where there
/// is no node id of up to 512 bytes or no public key of 32.
pub proof fn lemma_header_of_fields(fields: Fields)
    ensures
        header_of_fields(fields) matches Some(header) ==> {
            &&& first_value(fields, 1) == Some(header.node_id)
            &&& first_value(fields, 2) == Some(header.public_key)
            &&& first_value(fields, 3) == header.role
        },
        header_of_fields(fields) is Some <==> {
            &&& first_value(fields, 1) matches Some(node_id)
            &&& node_id.len() <= 512
            &&& first_value(fields, 2) matches Some(public_key)
            &&& public_key.len() == 32
        },
{
}

/// A header is only ever what the fields of a frame say that the cluster signed: in front
/// of the last 64 bytes stands a frame, these bytes are a signature on it that the key
/// accepts, and node id, public key and role are the first values of their tags.
pub proof fn lemma_verified_header(key: Seq<u8>, data: Seq<u8>, header: HeaderView)
    requires
        verified_header(key, data) == Ok::<HeaderView, SignatureValidationErr>(header),
    ensures
        data.len() >= 64,
        ed25519_verifies(key, data.take(data.len() - 64), data.skip(data.len() - 64)),
        exists|fields: Fields|
            {
                &&& fits(fields)
                &&& data.take(data.len() - 64) == #[trigger] frame_bytes(fields)
                &&& first_value(fields, 1) == Some(header.node_id)
                &&& first_value(fields, 2) == Some(header.public_key)
                &&& first_value(fields, 3) == header.role
            },
        header.node_id.len() <= 512,
        header.public_key.len() == 32,
{
    let payload = data.take(data.len() - 64);
    lemma_verified_payload(key, data);
    let fields = choose|fields: Fields| fits(fields) && payload == #[trigger] frame_bytes(fields);
    lemma_header_of_fields(fields);
    assert(fits(fields) && payload == frame_bytes(fields));
}

/// Why bytes are refused as a signed header: they are too short for a signature, the key
/// does not accept it, or what it signs is no header.
pub proof fn lemma_header_refused(key: Seq<u8>, data: Seq<u8>)
    ensures
        verified_header(key, data) == Err::<HeaderView, SignatureValidationErr>(
            SignatureValidationErr::BadSignature,
        ) <==> data.len() >= 64 && !ed25519_verifies(
            key,
            data.take(data.len() - 64),
            data.skip(data.len() - 64),
        ),
        data.len() < 64 ==> verified_header(key, data) == Err::<HeaderView, SignatureValidationErr>(
            SignatureValidationErr::MalformedRecord,
        ),
        verified_header(key, data) matches Err(e) ==> e == SignatureValidationErr::BadSignature || e
            == SignatureValidationErr::MalformedRecord,
        forall|fields: Fields|
            #![trigger frame_bytes(fields)]
            data.len() >= 64 && ed25519_verifies(
                key,
                data.take(data.len() - 64),
                data.skip(data.len() - 64),
            ) && fits(fields) && data.take(data.len() - 64) == frame_bytes(fields) ==> (
            verified_header(key, data) is Ok <==> {
                &&& first_value(fields, 1) matches Some(node_id)
                &&& node_id.len() <= 512
                &&& first_value(fields, 2) matches Some(public_key)
                &&& public_key.len() == 32
            }),
{
    lemma_verified_payload(key, data);
    assert forall|fields: Fields|
        #![trigger frame_bytes(fields)]
        data.len() >= 64 && ed25519_verifies(
            key,
            data.take(data.len() - 64),
            data.skip(data.len() - 64),
        ) && fits(fields) && data.take(data.len() - 64) == frame_bytes(fields) implies (
    verified_header(key, data) is Ok <==> {
        &&& first_value(fields, 1) matches Some(node_id)
        &&& node_id.len() <= 512
        &&& first_value(fields, 2) matches Some(public_key)
        &&& public_key.len() == 32
    }) by {
        lemma_decoded(fields);
        lemma_header_of_fields(fields);
    }
}

/// A role is the bytes that it holds.
pub proof fn lemma_role_view(role: Option<Vec<u8>>)
    ensures
        role matches Some(bytes) ==> role_view(role) == Some(bytes@),
        role is None ==> role_view(role) is None,
{
}

/// How a header is written: the node id, then the public key, then the role if there is one,
/// each whole and under its tag.
pub proof fn lemma_header_fields(header: HeaderView)
    ensures
        header_fields(header).len() == (if header.role is Some {
            3int
        } else {
            2
        }),
        header_fields(header)[0] == (1u16, header.node_id),
        header_fields(header)[1] == (2u16, header.public_key),
        header.role matches Some(role) ==> header_fields(header)[2] == (3u16, role),
{
}

/// Bytes are a header exactly if they are a frame that says one.
pub proof fn lemma_decoded_header(data: Seq<u8>)
    ensures
        decoded_header(data) matches Some(header) ==> exists|fields: Fields|
            {
                &&& fits(fields)
                &&& data == #[trigger] frame_bytes(fields)
                &&& first_value(fields, 1) == Some(header.node_id)
                &&& first_value(fields, 2) == Some(header.public_key)
                &&& first_value(fields, 3) == header.role
                &&& header.node_id.len() <= 512
                &&& header.public_key.len() == 32
            },
        forall|fields: Fields|
            #![trigger frame_bytes(fields)]
            fits(fields) && data == frame_bytes(fields) ==> (decoded_header(data) is Some <==> {
                &&& first_value(fields, 1) matches Some(node_id)
                &&& node_id.len() <= 512
                &&& first_value(fields, 2) matches Some(public_key)
                &&& public_key.len() == 32
            }),
{
    if decoded_header(data) is Some {
        let fields = choose|fields: Fields| fits(fields) && data == #[trigger] frame_bytes(fields);
        lemma_header_of_fields(fields);
        assert(fits(fields) && data == frame_bytes(fields));
    }
    assert forall|fields: Fields|
        #![trigger frame_bytes(fields)]
        fits(fields) && data == frame_bytes(fields) implies (decoded_header(data) is Some <==> {
        &&& first_value(fields, 1) matches Some(node_id)
        &&& node_id.len() <= 512
        &&& first_value(fields, 2) matches Some(public_key)
        &&& public_key.len() == 32
    }) by {
        lemma_decoded(fields);
        lemma_header_of_fields(fields);
    }
}

} // verus!
