//! Pairing two devices and undoing it (package `nearclip.pairing`).
use vstd::prelude::*;
use vstd::seq_lib::lemma_concat_associative;
use vstd::std_specs::convert::FromSpecImpl;
use vstd::utf8::{decode_utf8, encode_utf8, encode_utf8_decode_utf8, encode_utf8_valid_utf8, valid_utf8};
use crate::proto::{parse_error, proto_string, serialize_error};
use crate::text::{decimal, from_text, qualified_text};
use crate::wire::{
    append_bytes, bytes_field, copy_bytes, decode_field, from_i32, group_depth_limit, i32_wire,
    lemma_decode_field_deeper, lemma_i32_wire_roundtrip, lemma_merge_bytes_field,
    lemma_merge_concat, lemma_merge_nothing, lemma_merge_preserves, lemma_merge_unknown,
    lemma_merge_varint_field, lemma_unknown_field, lemma_unknown_fields_concat,
    lemma_unknown_run_concat, lemma_unknown_run_empty, lemma_unknown_run_field,
    lemma_unknown_run_fields, merge_bytes, merge_message, size_limit, to_i32, unknown_fields,
    unknown_run, varint_field, wire_i32, write_bytes_field, write_varint_field, FieldValue,
    WireMessage, WireValue,
};

verus! {

/// Where a pairing stands. An open enumeration: a value this version does not
/// name is kept as it is.
#[derive(Clone, Copy, PartialEq, Eq, Structural, Hash, PartialOrd, Ord, Debug)]
pub struct PairingStatus(pub i32);

impl View for PairingStatus {
    type V = i32;

    open spec fn view(&self) -> i32 {
        self.0
    }
}

#[allow(non_snake_case)]
impl PairingStatus {
    pub fn PairingUnknown() -> (r: PairingStatus)
        ensures
            r@ == 0,
            Self::known_name(r@) == Some("PairingUnknown"@),
    {
        PairingStatus(0)
    }

    pub fn PairingInitiated() -> (r: PairingStatus)
        ensures
            r@ == 1,
            Self::known_name(r@) == Some("PairingInitiated"@),
    {
        PairingStatus(1)
    }

    pub fn PairingPending() -> (r: PairingStatus)
        ensures
            r@ == 2,
            Self::known_name(r@) == Some("PairingPending"@),
    {
        PairingStatus(2)
    }

    pub fn PairingConfirmed() -> (r: PairingStatus)
        ensures
            r@ == 3,
            Self::known_name(r@) == Some("PairingConfirmed"@),
    {
        PairingStatus(3)
    }

    pub fn PairingFailed() -> (r: PairingStatus)
        ensures
            r@ == 4,
            Self::known_name(r@) == Some("PairingFailed"@),
    {
        PairingStatus(4)
    }

    pub fn PairingCompleted() -> (r: PairingStatus)
        ensures
            r@ == 5,
            Self::known_name(r@) == Some("PairingCompleted"@),
    {
        PairingStatus(5)
    }

    /// The name of each value this version knows.
    pub open spec fn known_name(value: i32) -> Option<Seq<char>> {
        if value == 0 {
            Some("PairingUnknown"@)
        } else if value == 1 {
            Some("PairingInitiated"@)
        } else if value == 2 {
            Some("PairingPending"@)
        } else if value == 3 {
            Some("PairingConfirmed"@)
        } else if value == 4 {
            Some("PairingFailed"@)
        } else if value == 5 {
            Some("PairingCompleted"@)
        } else {
            None
        }
    }

    /// Whether this version names `value`.
    pub fn is_known(value: i32) -> (r: bool)
        ensures
            r == (Self::known_name(value) is Some),
    {
        0 <= value && value <= 5
    }

    /// The name of the value, when this version knows it.
    pub fn constant_name(&self) -> (r: Option<&'static str>)
        ensures
            match Self::known_name(self@) {
                Some(n) => r matches Some(s) && s@ == n,
                None => r is None,
            },
    {
        match self.0 {
            0 => Some("PairingUnknown"),
            1 => Some("PairingInitiated"),
            2 => Some("PairingPending"),
            3 => Some("PairingConfirmed"),
            4 => Some("PairingFailed"),
            5 => Some("PairingCompleted"),
            _ => None,
        }
    }

    /// How the value is shown: `PairingStatus::` and its name when this version
    /// knows it, else `PairingStatus::from(` with its number and `)`.
    pub fn debug_text(&self) -> (r: String)
        ensures
            r@ == match Self::known_name(self@) {
                Some(n) => "PairingStatus"@ + "::"@ + n,
                None => "PairingStatus"@ + "::from("@ + decimal(self@ as int) + ")"@,
            },
    {
        match self.constant_name() {
            Some(n) => qualified_text("PairingStatus", n),
            None => from_text("PairingStatus", self.0),
        }
    }
}

/// The names of `PairingStatus`: the value of each constant is named after that
/// constant, and a value outside 0 to 5 has no name.
pub proof fn lemma_pairing_status_names()
    ensures
        PairingStatus::known_name(0) == Some("PairingUnknown"@),
        PairingStatus::known_name(1) == Some("PairingInitiated"@),
        PairingStatus::known_name(2) == Some("PairingPending"@),
        PairingStatus::known_name(3) == Some("PairingConfirmed"@),
        PairingStatus::known_name(4) == Some("PairingFailed"@),
        PairingStatus::known_name(5) == Some("PairingCompleted"@),
        forall|v: i32| #[trigger] PairingStatus::known_name(v) is Some <==> 0 <= v <= 5,
{
}

impl From<i32> for PairingStatus {
    fn from(val: i32) -> (r: PairingStatus)
        ensures
            r@ == val,
    {
        PairingStatus(val)
    }
}

impl FromSpecImpl<i32> for PairingStatus {
    open spec fn obeys_from_spec() -> bool {
        true
    }

    open spec fn from_spec(v: i32) -> PairingStatus {
        PairingStatus(v)
    }
}

impl From<PairingStatus> for i32 {
    fn from(val: PairingStatus) -> (r: i32)
        ensures
            r == val@,
    {
        val.0
    }
}

impl FromSpecImpl<PairingStatus> for i32 {
    open spec fn obeys_from_spec() -> bool {
        true
    }

    open spec fn from_spec(v: PairingStatus) -> i32 {
        v.0
    }
}

impl Default for PairingStatus {
    fn default() -> (r: Self)
        ensures
            r@ == 0,
    {
        PairingStatus(0)
    }
}

/// The content of a `PairingRequest`.
pub struct PairingRequestModel {
    pub initiator_id: Seq<char>,
    pub target_id: Seq<char>,
    pub public_key: Seq<u8>,
    pub device_name: Seq<char>,
    pub nonce: Seq<u8>,
    pub timestamp: u64,
    /// The fields read but not understood, as they came, in order.
    pub unknown: Seq<u8>,
}

impl PairingRequestModel {
    /// The message with every field at its default.
    pub open spec fn empty() -> Self {
        PairingRequestModel {
            initiator_id: Seq::empty(),
            target_id: Seq::empty(),
            public_key: Seq::empty(),
            device_name: Seq::empty(),
            nonce: Seq::empty(),
            timestamp: 0,
            unknown: Seq::empty(),
        }
    }

    /// The wire form: fields in number order, defaults and absent
    /// sub-messages left out, then the unknown fields as they came.
    #[verifier::opaque]
    pub open spec fn encode(self) -> Seq<u8> {
        bytes_field(1, encode_utf8(self.initiator_id))
            + bytes_field(2, encode_utf8(self.target_id))
            + bytes_field(3, self.public_key)
            + bytes_field(4, encode_utf8(self.device_name))
            + bytes_field(5, self.nonce)
            + varint_field(6, self.timestamp)
            + self.unknown
    }

    /// Whether a field is kept, as it came, among the unknown fields: its
    /// number is not one of this message's, or it comes with another wire
    /// type than its field is written with.
    pub open spec fn keeps_unknown(field: nat, value: WireValue) -> bool {
        if field == 1 {
            !(value is Delimited)
        } else if field == 2 {
            !(value is Delimited)
        } else if field == 3 {
            !(value is Delimited)
        } else if field == 4 {
            !(value is Delimited)
        } else if field == 5 {
            !(value is Delimited)
        } else if field == 6 {
            !(value is Varint)
        } else {
            true
        }
    }

    /// `keeps_unknown` as a function.
    pub open spec fn keeps() -> spec_fn(nat, WireValue) -> bool {
        |field: nat, value: WireValue| PairingRequestModel::keeps_unknown(field, value)
    }

    /// How one field of the wire form changes the message; `raw` is the
    /// field as it came. `None` when the field's content is malformed.
    #[verifier::opaque]
    pub open spec fn apply(self, field: nat, value: WireValue, raw: Seq<u8>, depth: nat) -> Option<Self> {
        if Self::keeps_unknown(field, value) {
            Some(PairingRequestModel { unknown: self.unknown + raw, ..self })
        } else if field == 1 {
            match value {
                WireValue::Delimited(b) => if valid_utf8(b) {
                    Some(PairingRequestModel { initiator_id: decode_utf8(b), ..self })
                } else {
                    None
                },
                _ => Some(self),
            }
        } else if field == 2 {
            match value {
                WireValue::Delimited(b) => if valid_utf8(b) {
                    Some(PairingRequestModel { target_id: decode_utf8(b), ..self })
                } else {
                    None
                },
                _ => Some(self),
            }
        } else if field == 3 {
            match value {
                WireValue::Delimited(b) => Some(PairingRequestModel { public_key: b, ..self }),
                _ => Some(self),
            }
        } else if field == 4 {
            match value {
                WireValue::Delimited(b) => if valid_utf8(b) {
                    Some(PairingRequestModel { device_name: decode_utf8(b), ..self })
                } else {
                    None
                },
                _ => Some(self),
            }
        } else if field == 5 {
            match value {
                WireValue::Delimited(b) => Some(PairingRequestModel { nonce: b, ..self }),
                _ => Some(self),
            }
        } else if field == 6 {
            match value {
                WireValue::Varint(v) => Some(PairingRequestModel { timestamp: v, ..self }),
                _ => Some(self),
            }
        } else {
            Some(self)
        }
    }

    /// `other` merged into this message, as protobuf merges: a scalar, string
    /// or bytes field set in `other` replaces the one here, repeated fields
    /// are appended, sub-messages are merged, map entries inserted and
    /// unknown fields appended.
    #[verifier::opaque]
    pub open spec fn merge(self, other: Self) -> Self {
        PairingRequestModel {
            initiator_id: if other.initiator_id.len() > 0 { other.initiator_id } else { self.initiator_id },
            target_id: if other.target_id.len() > 0 { other.target_id } else { self.target_id },
            public_key: if other.public_key.len() > 0 { other.public_key } else { self.public_key },
            device_name: if other.device_name.len() > 0 { other.device_name } else { self.device_name },
            nonce: if other.nonce.len() > 0 { other.nonce } else { self.nonce },
            timestamp: if other.timestamp != 0 { other.timestamp } else { self.timestamp },
            unknown: self.unknown + other.unknown,
        }
    }

    /// What writing the message out and reading it back relies on: the
    /// unknown fields are whole fields this message does not read, and
    /// the same holds of every sub-message.
    pub open spec fn well_formed(self) -> bool {
        &&& unknown_fields::<PairingRequest>(self.unknown, group_depth_limit())
    }

    /// What reading the wire form back with `depth` levels of nesting left
    /// relies on: the message is well formed, its unknown fields read as
    /// whole fields with `depth` levels, and each sub-message reads back
    /// with one level less.
    pub open spec fn well_formed_at(self, depth: nat) -> bool {
        &&& self.well_formed()
        &&& unknown_fields::<PairingRequest>(self.unknown, depth)
    }
}

/// Reading the `initiator_id` field as `b` writes it merges it into `m`.
proof fn lemma_pairing_request_read_initiator_id(m: PairingRequestModel, b: PairingRequestModel, rest: Seq<u8>, depth: nat)
    requires
        bytes_field(1, encode_utf8(b.initiator_id)).len() <= size_limit(),
    ensures
        merge_message::<PairingRequest>(m, bytes_field(1, encode_utf8(b.initiator_id)) + rest, depth) == merge_message::<PairingRequest>(
            PairingRequestModel { initiator_id: if b.initiator_id.len() > 0 { b.initiator_id } else { m.initiator_id }, ..m },
            rest,
            depth,
        ),
{
    let next = PairingRequestModel { initiator_id: if b.initiator_id.len() > 0 { b.initiator_id } else { m.initiator_id }, ..m };
    reveal(PairingRequestModel::apply);
    encode_utf8_decode_utf8(b.initiator_id);
    encode_utf8_valid_utf8(b.initiator_id);
    lemma_merge_bytes_field::<PairingRequest>(m, 1, encode_utf8(b.initiator_id), rest, next, depth);
}

/// Reading the `target_id` field as `b` writes it merges it into `m`.
proof fn lemma_pairing_request_read_target_id(m: PairingRequestModel, b: PairingRequestModel, rest: Seq<u8>, depth: nat)
    requires
        bytes_field(2, encode_utf8(b.target_id)).len() <= size_limit(),
    ensures
        merge_message::<PairingRequest>(m, bytes_field(2, encode_utf8(b.target_id)) + rest, depth) == merge_message::<PairingRequest>(
            PairingRequestModel { target_id: if b.target_id.len() > 0 { b.target_id } else { m.target_id }, ..m },
            rest,
            depth,
        ),
{
    let next = PairingRequestModel { target_id: if b.target_id.len() > 0 { b.target_id } else { m.target_id }, ..m };
    reveal(PairingRequestModel::apply);
    encode_utf8_decode_utf8(b.target_id);
    encode_utf8_valid_utf8(b.target_id);
    lemma_merge_bytes_field::<PairingRequest>(m, 2, encode_utf8(b.target_id), rest, next, depth);
}

/// Reading the `public_key` field as `b` writes it merges it into `m`.
proof fn lemma_pairing_request_read_public_key(m: PairingRequestModel, b: PairingRequestModel, rest: Seq<u8>, depth: nat)
    requires
        bytes_field(3, b.public_key).len() <= size_limit(),
    ensures
        merge_message::<PairingRequest>(m, bytes_field(3, b.public_key) + rest, depth) == merge_message::<PairingRequest>(
            PairingRequestModel { public_key: if b.public_key.len() > 0 { b.public_key } else { m.public_key }, ..m },
            rest,
            depth,
        ),
{
    let next = PairingRequestModel { public_key: if b.public_key.len() > 0 { b.public_key } else { m.public_key }, ..m };
    reveal(PairingRequestModel::apply);
    lemma_merge_bytes_field::<PairingRequest>(m, 3, b.public_key, rest, next, depth);
}

/// Reading the `device_name` field as `b` writes it merges it into `m`.
proof fn lemma_pairing_request_read_device_name(m: PairingRequestModel, b: PairingRequestModel, rest: Seq<u8>, depth: nat)
    requires
        bytes_field(4, encode_utf8(b.device_name)).len() <= size_limit(),
    ensures
        merge_message::<PairingRequest>(m, bytes_field(4, encode_utf8(b.device_name)) + rest, depth) == merge_message::<PairingRequest>(
            PairingRequestModel { device_name: if b.device_name.len() > 0 { b.device_name } else { m.device_name }, ..m },
            rest,
            depth,
        ),
{
    let next = PairingRequestModel { device_name: if b.device_name.len() > 0 { b.device_name } else { m.device_name }, ..m };
    reveal(PairingRequestModel::apply);
    encode_utf8_decode_utf8(b.device_name);
    encode_utf8_valid_utf8(b.device_name);
    lemma_merge_bytes_field::<PairingRequest>(m, 4, encode_utf8(b.device_name), rest, next, depth);
}

/// Reading the `nonce` field as `b` writes it merges it into `m`.
proof fn lemma_pairing_request_read_nonce(m: PairingRequestModel, b: PairingRequestModel, rest: Seq<u8>, depth: nat)
    requires
        bytes_field(5, b.nonce).len() <= size_limit(),
    ensures
        merge_message::<PairingRequest>(m, bytes_field(5, b.nonce) + rest, depth) == merge_message::<PairingRequest>(
            PairingRequestModel { nonce: if b.nonce.len() > 0 { b.nonce } else { m.nonce }, ..m },
            rest,
            depth,
        ),
{
    let next = PairingRequestModel { nonce: if b.nonce.len() > 0 { b.nonce } else { m.nonce }, ..m };
    reveal(PairingRequestModel::apply);
    lemma_merge_bytes_field::<PairingRequest>(m, 5, b.nonce, rest, next, depth);
}

/// Reading the `timestamp` field as `b` writes it merges it into `m`.
proof fn lemma_pairing_request_read_timestamp(m: PairingRequestModel, b: PairingRequestModel, rest: Seq<u8>, depth: nat)
    requires
        varint_field(6, b.timestamp).len() <= size_limit(),
    ensures
        merge_message::<PairingRequest>(m, varint_field(6, b.timestamp) + rest, depth) == merge_message::<PairingRequest>(
            PairingRequestModel { timestamp: if b.timestamp != 0 { b.timestamp } else { m.timestamp }, ..m },
            rest,
            depth,
        ),
{
    let next = PairingRequestModel { timestamp: if b.timestamp != 0 { b.timestamp } else { m.timestamp }, ..m };
    reveal(PairingRequestModel::apply);
    lemma_merge_varint_field::<PairingRequest>(m, 6, b.timestamp, rest, next, depth);
}

/// Reading the unknown fields as `b` writes them adds them to those of `m`.
proof fn lemma_pairing_request_read_unknown(m: PairingRequestModel, b: PairingRequestModel, rest: Seq<u8>, depth: nat)
    requires
        b.unknown.len() <= size_limit(),
        b.well_formed_at(depth),
    ensures
        merge_message::<PairingRequest>(m, b.unknown + rest, depth) == merge_message::<PairingRequest>(
            PairingRequestModel { unknown: m.unknown + b.unknown, ..m },
            rest,
            depth,
        ),
{
    lemma_merge_unknown::<PairingRequest>(m, b.unknown, rest, depth);
}

/// Reading the wire form of `b` into `a`, with `depth` levels of nesting left,
/// gives `b` merged into `a`.
pub proof fn lemma_pairing_request_merge_wire(a: PairingRequestModel, b: PairingRequestModel, depth: nat)
    requires
        b.encode().len() <= size_limit(),
        b.well_formed_at(depth),
    ensures
        merge_message::<PairingRequest>(a, b.encode(), depth) == Some(a.merge(b)),
{
    let c1 = bytes_field(1, encode_utf8(b.initiator_id));
    let c2 = bytes_field(2, encode_utf8(b.target_id));
    let c3 = bytes_field(3, b.public_key);
    let c4 = bytes_field(4, encode_utf8(b.device_name));
    let c5 = bytes_field(5, b.nonce);
    let c6 = varint_field(6, b.timestamp);
    let c7 = b.unknown;
    assert(b.encode() == c1 + c2 + c3 + c4 + c5 + c6 + c7) by {
        reveal(PairingRequestModel::encode);
    }
    let m0 = a;
    let m1 = PairingRequestModel { initiator_id: if b.initiator_id.len() > 0 { b.initiator_id } else { m0.initiator_id }, ..m0 };
    lemma_pairing_request_read_initiator_id(m0, b, Seq::empty(), depth);
    assert(c1 + Seq::empty() =~= c1);
    lemma_merge_nothing::<PairingRequest>(m1, depth);
    let m2 = PairingRequestModel { target_id: if b.target_id.len() > 0 { b.target_id } else { m1.target_id }, ..m1 };
    lemma_pairing_request_read_target_id(m1, b, Seq::empty(), depth);
    assert(c2 + Seq::empty() =~= c2);
    lemma_merge_nothing::<PairingRequest>(m2, depth);
    lemma_merge_concat::<PairingRequest>(a, c1, c2, depth);
    let m3 = PairingRequestModel { public_key: if b.public_key.len() > 0 { b.public_key } else { m2.public_key }, ..m2 };
    lemma_pairing_request_read_public_key(m2, b, Seq::empty(), depth);
    assert(c3 + Seq::empty() =~= c3);
    lemma_merge_nothing::<PairingRequest>(m3, depth);
    lemma_merge_concat::<PairingRequest>(a, c1 + c2, c3, depth);
    let m4 = PairingRequestModel { device_name: if b.device_name.len() > 0 { b.device_name } else { m3.device_name }, ..m3 };
    lemma_pairing_request_read_device_name(m3, b, Seq::empty(), depth);
    assert(c4 + Seq::empty() =~= c4);
    lemma_merge_nothing::<PairingRequest>(m4, depth);
    lemma_merge_concat::<PairingRequest>(a, c1 + c2 + c3, c4, depth);
    let m5 = PairingRequestModel { nonce: if b.nonce.len() > 0 { b.nonce } else { m4.nonce }, ..m4 };
    lemma_pairing_request_read_nonce(m4, b, Seq::empty(), depth);
    assert(c5 + Seq::empty() =~= c5);
    lemma_merge_nothing::<PairingRequest>(m5, depth);
    lemma_merge_concat::<PairingRequest>(a, c1 + c2 + c3 + c4, c5, depth);
    let m6 = PairingRequestModel { timestamp: if b.timestamp != 0 { b.timestamp } else { m5.timestamp }, ..m5 };
    lemma_pairing_request_read_timestamp(m5, b, Seq::empty(), depth);
    assert(c6 + Seq::empty() =~= c6);
    lemma_merge_nothing::<PairingRequest>(m6, depth);
    lemma_merge_concat::<PairingRequest>(a, c1 + c2 + c3 + c4 + c5, c6, depth);
    let m7 = PairingRequestModel { unknown: m6.unknown + b.unknown, ..m6 };
    lemma_pairing_request_read_unknown(m6, b, Seq::empty(), depth);
    assert(c7 + Seq::empty() =~= c7);
    lemma_merge_nothing::<PairingRequest>(m7, depth);
    lemma_merge_concat::<PairingRequest>(a, c1 + c2 + c3 + c4 + c5 + c6, c7, depth);
    assert(m7 == a.merge(b)) by {
        reveal(PairingRequestModel::merge);
    }
}

/// Merging the empty message changes nothing.
pub proof fn lemma_pairing_request_merge_empty(a: PairingRequestModel)
    ensures
        a.merge(PairingRequestModel::empty()) == a,
{
    reveal(PairingRequestModel::merge);
    assert(a.unknown + Seq::empty() =~= a.unknown);
    assert(a.merge(PairingRequestModel::empty()) =~= a);
}

/// Merging a message into the empty one gives that message.
pub proof fn lemma_pairing_request_empty_merge(b: PairingRequestModel)
    ensures
        PairingRequestModel::empty().merge(b) == b,
{
    reveal(PairingRequestModel::merge);
    assert(b.initiator_id.len() == 0 ==> b.initiator_id =~= Seq::<char>::empty());
    assert(b.target_id.len() == 0 ==> b.target_id =~= Seq::<char>::empty());
    assert(b.public_key.len() == 0 ==> b.public_key =~= Seq::<u8>::empty());
    assert(b.device_name.len() == 0 ==> b.device_name =~= Seq::<char>::empty());
    assert(b.nonce.len() == 0 ==> b.nonce =~= Seq::<u8>::empty());
    assert(Seq::empty() + b.unknown =~= b.unknown);
    assert(PairingRequestModel::empty().merge(b) =~= b);
}

/// Writing a message out and reading it back, with `depth` levels of
/// nesting left (`group_depth_limit()` for a message read on its own),
/// gives the same message.
pub proof fn lemma_pairing_request_roundtrip(m: PairingRequestModel, depth: nat)
    requires
        m.encode().len() <= size_limit(),
        m.well_formed_at(depth),
    ensures
        merge_message::<PairingRequest>(PairingRequestModel::empty(), m.encode(), depth) == Some(m),
{
    lemma_pairing_request_merge_wire(PairingRequestModel::empty(), m, depth);
    lemma_pairing_request_empty_merge(m);
}

/// Reading two encoded messages written one after the other, with `depth`
/// levels of nesting left, gives the second merged into the first.
pub proof fn lemma_pairing_request_concat(a: PairingRequestModel, b: PairingRequestModel, depth: nat)
    requires
        a.encode().len() <= size_limit(),
        b.encode().len() <= size_limit(),
        a.well_formed_at(depth),
        b.well_formed_at(depth),
    ensures
        merge_message::<PairingRequest>(PairingRequestModel::empty(), a.encode() + b.encode(), depth) == Some(a.merge(b)),
{
    lemma_pairing_request_roundtrip(a, depth);
    lemma_merge_concat::<PairingRequest>(PairingRequestModel::empty(), a.encode(), b.encode(), depth);
    lemma_pairing_request_merge_wire(a, b, depth);
}

/// Merging two well-formed messages gives a well-formed message.
pub proof fn lemma_pairing_request_merge_well_formed(a: PairingRequestModel, b: PairingRequestModel)
    requires
        a.well_formed(),
        b.well_formed(),
    ensures
        a.merge(b).well_formed(),
{
    reveal(PairingRequestModel::merge);
    lemma_unknown_fields_concat::<PairingRequest>(a.unknown, b.unknown, group_depth_limit());
}

/// Reading one whole field into a well-formed message keeps it well formed.
proof fn lemma_pairing_request_apply_well_formed(m: PairingRequestModel, field: nat, value: WireValue, raw: Seq<u8>, depth: nat)
    requires
        m.well_formed(),
        depth <= group_depth_limit(),
        decode_field(raw, depth) == Some((field, value, raw.len())),
        m.apply(field, value, raw, depth) is Some,
    ensures
        m.apply(field, value, raw, depth)->0.well_formed(),
{
    reveal(PairingRequestModel::apply);
    if PairingRequestModel::keeps_unknown(field, value) {
        lemma_decode_field_deeper(raw, depth, group_depth_limit());
        lemma_unknown_field::<PairingRequest>(raw, field, value, group_depth_limit());
        lemma_unknown_fields_concat::<PairingRequest>(m.unknown, raw, group_depth_limit());
    }
}

/// Reading whole fields into a well-formed message, with at most
/// `group_depth_limit()` levels of nesting left, keeps it well formed.
pub proof fn lemma_pairing_request_parse_well_formed(m: PairingRequestModel, s: Seq<u8>, depth: nat)
    requires
        m.well_formed(),
        depth <= group_depth_limit(),
        merge_message::<PairingRequest>(m, s, depth) is Some,
    ensures
        merge_message::<PairingRequest>(m, s, depth)->0.well_formed(),
{
    assert forall|x: PairingRequestModel, field: nat, value: WireValue, raw: Seq<u8>|
        x.well_formed() && decode_field(raw, depth) == Some((field, value, raw.len())) && #[trigger] PairingRequest::apply_wire(
            x,
            field,
            value,
            raw,
            depth,
        ) is Some implies PairingRequest::apply_wire(x, field, value, raw, depth)->0.well_formed() by {
        lemma_pairing_request_apply_well_formed(x, field, value, raw, depth);
    }
    lemma_merge_preserves::<PairingRequest>(m, s, |x: PairingRequestModel| x.well_formed(), depth);
}

/// The request that opens a pairing: who asks whom, with a public key and a nonce.
pub struct PairingRequest {
    initiator_id: String,
    target_id: String,
    public_key: Vec<u8>,
    device_name: String,
    nonce: Vec<u8>,
    timestamp: u64,
    unknown: PairingRequestUnknown,
}

impl View for PairingRequest {
    type V = PairingRequestModel;

    closed spec fn view(&self) -> PairingRequestModel {
        PairingRequestModel {
            initiator_id: self.initiator_id@,
            target_id: self.target_id@,
            public_key: self.public_key@,
            device_name: self.device_name@,
            nonce: self.nonce@,
            timestamp: self.timestamp,
            unknown: self.unknown@,
        }
    }
}

/// The unknown fields of a `PairingRequest`: whole fields it does not read, as they
/// came, in order.
struct PairingRequestUnknown {
    bytes: Vec<u8>,
}

impl View for PairingRequestUnknown {
    type V = Seq<u8>;

    closed spec fn view(&self) -> Seq<u8> {
        if unknown_run(self.bytes@, PairingRequestModel::keeps(), group_depth_limit()) {
            self.bytes@
        } else {
            Seq::empty()
        }
    }
}

impl PairingRequestUnknown {
    #[verifier::type_invariant]
    closed spec fn whole(self) -> bool {
        unknown_run(self.bytes@, PairingRequestModel::keeps(), group_depth_limit())
    }

    fn new() -> (r: Self)
        ensures
            r@ == Seq::<u8>::empty(),
    {
        proof {
            lemma_unknown_run_empty(PairingRequestModel::keeps(), group_depth_limit());
        }
        PairingRequestUnknown { bytes: Vec::new() }
    }

    /// Adds one whole field that the message does not read.
    fn push_field(&mut self, raw: &[u8], Ghost(field): Ghost<nat>, Ghost(value): Ghost<WireValue>)
        requires
            decode_field(raw@, group_depth_limit()) == Some((field, value, raw@.len())),
            PairingRequestModel::keeps_unknown(field, value),
        ensures
            final(self)@ == old(self)@ + raw@,
    {
        proof {
            use_type_invariant(&*self);
            lemma_unknown_run_field(raw@, field, value, PairingRequestModel::keeps(), group_depth_limit());
            lemma_unknown_run_concat(self.bytes@, raw@, PairingRequestModel::keeps(), group_depth_limit());
            lemma_unknown_run_empty(PairingRequestModel::keeps(), group_depth_limit());
        }
        let mut bytes = Vec::new();
        std::mem::swap(&mut bytes, &mut self.bytes);
        append_bytes(&mut bytes, raw);
        self.bytes = bytes;
    }

    /// Adds the unknown fields of another message of the same kind.
    fn append(&mut self, other: &Self)
        ensures
            final(self)@ == old(self)@ + other@,
    {
        proof {
            use_type_invariant(&*self);
            use_type_invariant(other);
            lemma_unknown_run_concat(self.bytes@, other.bytes@, PairingRequestModel::keeps(), group_depth_limit());
            lemma_unknown_run_empty(PairingRequestModel::keeps(), group_depth_limit());
        }
        let mut bytes = Vec::new();
        std::mem::swap(&mut bytes, &mut self.bytes);
        append_bytes(&mut bytes, other.bytes.as_slice());
        self.bytes = bytes;
    }

    fn as_slice(&self) -> (r: &[u8])
        ensures
            r@ == self@,
    {
        proof {
            use_type_invariant(self);
        }
        self.bytes.as_slice()
    }

    fn copy(&self) -> (r: Self)
        ensures
            r@ == self@,
    {
        proof {
            use_type_invariant(self);
        }
        PairingRequestUnknown { bytes: copy_bytes(self.bytes.as_slice()) }
    }
}

impl WireMessage for PairingRequest {
    open spec fn apply_wire(message: PairingRequestModel, field: nat, value: WireValue, raw: Seq<u8>, depth: nat) -> Option<PairingRequestModel> {
        message.apply(field, value, raw, depth)
    }

    open spec fn keeps_unknown(field: nat, value: WireValue) -> bool {
        PairingRequestModel::keeps_unknown(field, value)
    }

    open spec fn add_unknown(message: PairingRequestModel, raw: Seq<u8>) -> PairingRequestModel {
        PairingRequestModel { unknown: message.unknown + raw, ..message }
    }

    proof fn lemma_apply_unknown(message: PairingRequestModel, field: nat, value: WireValue, raw: Seq<u8>, depth: nat) {
        reveal(PairingRequestModel::apply);
    }

    proof fn lemma_add_unknown(message: PairingRequestModel, a: Seq<u8>, b: Seq<u8>) {
        assert(message.unknown + a + b =~= message.unknown + (a + b));
        assert(message.unknown + Seq::<u8>::empty() =~= message.unknown);
    }

    fn apply_field(
        &mut self,
        data: &[u8],
        field: u32,
        value: FieldValue,
        start: usize,
        end: usize,
        depth: u32,
    ) -> (ok: bool) {
        proof {
            reveal(PairingRequestModel::apply);
        }
        if field == 1 {
            if let FieldValue::Delimited(from, to) = value {
                match proto_string(&data[from..to]) {
                    Some(text) => self.initiator_id = text,
                    None => return false,
                }
                return true;
            }
        } else if field == 2 {
            if let FieldValue::Delimited(from, to) = value {
                match proto_string(&data[from..to]) {
                    Some(text) => self.target_id = text,
                    None => return false,
                }
                return true;
            }
        } else if field == 3 {
            if let FieldValue::Delimited(from, to) = value {
                self.public_key = copy_bytes(&data[from..to]);
                return true;
            }
        } else if field == 4 {
            if let FieldValue::Delimited(from, to) = value {
                match proto_string(&data[from..to]) {
                    Some(text) => self.device_name = text,
                    None => return false,
                }
                return true;
            }
        } else if field == 5 {
            if let FieldValue::Delimited(from, to) = value {
                self.nonce = copy_bytes(&data[from..to]);
                return true;
            }
        } else if field == 6 {
            if let FieldValue::Varint(v) = value {
                self.timestamp = v;
                return true;
            }
        }
        proof {
            lemma_decode_field_deeper(data@.subrange(start as int, end as int), depth as nat, group_depth_limit());
        }
        self.unknown.push_field(&data[start..end], Ghost(field as nat), Ghost(value.wire(data@)));
        true
    }
}

/// The content of every `PairingRequest` is well formed.
pub proof fn lemma_pairing_request_well_formed(m: PairingRequest)
    ensures
        m@.well_formed(),
{
    lemma_unknown_run_fields::<PairingRequest>(m.unknown.bytes@, PairingRequestModel::keeps(), group_depth_limit());
}

impl PairingRequest {
    /// A message with every field at its default.
    pub fn new() -> (r: Self)
        ensures
            r@ == PairingRequestModel::empty(),
    {
        let r = PairingRequest {
            initiator_id: String::new(),
            target_id: String::new(),
            public_key: Vec::new(),
            device_name: String::new(),
            nonce: Vec::new(),
            timestamp: 0,
            unknown: PairingRequestUnknown::new(),
        };
        r
    }

    /// Reads a message from its wire form.
    pub fn parse(data: &[u8]) -> (r: Result<Self, protobuf::ParseError>)
        ensures
            match merge_message::<PairingRequest>(PairingRequestModel::empty(), data@, group_depth_limit()) {
                Some(m) => r matches Ok(msg) && msg@ == m && m.well_formed(),
                None => r is Err,
            },
    {
        proof {
            if merge_message::<PairingRequest>(PairingRequestModel::empty(), data@, group_depth_limit()) is Some {
                lemma_pairing_request_parse_well_formed(PairingRequestModel::empty(), data@, group_depth_limit());
            }
        }
        let mut msg = Self::new();
        if merge_bytes(&mut msg, data, 100) {
            Ok(msg)
        } else {
            Err(parse_error())
        }
    }

    /// Same as `parse`: the message has no required fields.
    pub fn parse_dont_enforce_required(data: &[u8]) -> (r: Result<Self, protobuf::ParseError>)
        ensures
            match merge_message::<PairingRequest>(PairingRequestModel::empty(), data@, group_depth_limit()) {
                Some(m) => r matches Ok(msg) && msg@ == m && m.well_formed(),
                None => r is Err,
            },
    {
        Self::parse(data)
    }

    /// Resets every field to its default.
    pub fn clear(&mut self)
        ensures
            final(self)@ == PairingRequestModel::empty(),
    {
        *self = PairingRequest::new();
    }

    /// Replaces the message by the one `data` encodes; on an error what the
    /// message then holds is unspecified.
    pub fn clear_and_parse(&mut self, data: &[u8]) -> (r: Result<(), protobuf::ParseError>)
        ensures
            match merge_message::<PairingRequest>(PairingRequestModel::empty(), data@, group_depth_limit()) {
                Some(m) => r is Ok && final(self)@ == m && m.well_formed(),
                None => r is Err,
            },
    {
        proof {
            if merge_message::<PairingRequest>(PairingRequestModel::empty(), data@, group_depth_limit()) is Some {
                lemma_pairing_request_parse_well_formed(PairingRequestModel::empty(), data@, group_depth_limit());
            }
        }
        *self = PairingRequest::new();
        if merge_bytes(self, data, 100) {
            Ok(())
        } else {
            Err(parse_error())
        }
    }

    /// Same as `clear_and_parse`: the message has no required fields; on an error what the
    /// message then holds is unspecified.
    pub fn clear_and_parse_dont_enforce_required(&mut self, data: &[u8]) -> (r: Result<(), protobuf::ParseError>)
        ensures
            match merge_message::<PairingRequest>(PairingRequestModel::empty(), data@, group_depth_limit()) {
                Some(m) => r is Ok && final(self)@ == m && m.well_formed(),
                None => r is Err,
            },
    {
        self.clear_and_parse(data)
    }

    /// Makes this message a copy of `src`.
    pub fn copy_from(&mut self, src: PairingRequestView<'_>)
        ensures
            final(self)@ == src@,
    {
        *self = src.to_owned();
    }

    /// Moves the content of `src` here, leaving `src` empty.
    pub fn take_from(&mut self, src: &mut PairingRequest)
        ensures
            final(self)@ == old(src)@,
            final(src)@ == PairingRequestModel::empty(),
    {
        let mut taken = PairingRequest::new();
        std::mem::swap(&mut taken, src);
        *self = taken;
    }

    /// Merges `src` into this message (see `merge` on the model).
    pub fn merge_from(&mut self, src: PairingRequestView<'_>)
        ensures
            final(self)@ == old(self)@.merge(src@),
    {
        match src.msg {
            Some(other) => self.merge_fields_from(other),
            None => {
                proof {
                    lemma_pairing_request_merge_empty(self@);
                }
            },
        }
    }

    fn merge_fields_from(&mut self, other: &PairingRequest)
        ensures
            final(self)@ == old(self)@.merge(other@),
    {
        proof {
            reveal(PairingRequestModel::merge);
        }
        let ghost start = self@;
        if !other.initiator_id.as_str().is_empty() {
            self.initiator_id = other.initiator_id.clone();
        }
        if !other.target_id.as_str().is_empty() {
            self.target_id = other.target_id.clone();
        }
        if other.public_key.len() > 0 {
            self.public_key = copy_bytes(other.public_key.as_slice());
        }
        if !other.device_name.as_str().is_empty() {
            self.device_name = other.device_name.clone();
        }
        if other.nonce.len() > 0 {
            self.nonce = copy_bytes(other.nonce.as_slice());
        }
        if other.timestamp != 0 {
            self.timestamp = other.timestamp;
        }
        self.unknown.append(&other.unknown);
        assert(self@ =~= start.merge(other@));
    }

    /// Appends the wire form to `buf`.
    pub fn write_to(&self, buf: &mut Vec<u8>)
        ensures
            final(buf)@ == old(buf)@ + self@.encode(),
    {
        let ghost start = buf@;
        let ghost c1 = bytes_field(1, encode_utf8(self@.initiator_id));
        let ghost c2 = bytes_field(2, encode_utf8(self@.target_id));
        let ghost c3 = bytes_field(3, self@.public_key);
        let ghost c4 = bytes_field(4, encode_utf8(self@.device_name));
        let ghost c5 = bytes_field(5, self@.nonce);
        let ghost c6 = varint_field(6, self@.timestamp);
        let ghost c7 = self@.unknown;
        write_bytes_field(buf, 1, self.initiator_id.as_str().as_bytes());
        let ghost mut written = c1;
        assert(buf@ == start + written);
        write_bytes_field(buf, 2, self.target_id.as_str().as_bytes());
        proof {
            lemma_concat_associative(start, written, c2);
            written = written + c2;
        }
        assert(buf@ == start + written);
        write_bytes_field(buf, 3, self.public_key.as_slice());
        proof {
            lemma_concat_associative(start, written, c3);
            written = written + c3;
        }
        assert(buf@ == start + written);
        write_bytes_field(buf, 4, self.device_name.as_str().as_bytes());
        proof {
            lemma_concat_associative(start, written, c4);
            written = written + c4;
        }
        assert(buf@ == start + written);
        write_bytes_field(buf, 5, self.nonce.as_slice());
        proof {
            lemma_concat_associative(start, written, c5);
            written = written + c5;
        }
        assert(buf@ == start + written);
        write_varint_field(buf, 6, self.timestamp);
        proof {
            lemma_concat_associative(start, written, c6);
            written = written + c6;
        }
        assert(buf@ == start + written);
        append_bytes(buf, self.unknown.as_slice());
        proof {
            lemma_concat_associative(start, written, c7);
            written = written + c7;
        }
        assert(buf@ == start + written);
        assert(self@.encode() == written) by {
            assert(written == c1 + c2 + c3 + c4 + c5 + c6 + c7);
            reveal(PairingRequestModel::encode);
        }
    }

    /// The wire form, refused when it is longer than `i32::MAX` bytes. The
    /// message is well formed, so the wire form reads back as the message.
    pub fn serialize(&self) -> (r: Result<Vec<u8>, protobuf::SerializeError>)
        ensures
            match r {
                Ok(bytes) => bytes@ == self@.encode() && self@.encode().len() <= 0x7fff_ffff,
                Err(_) => self@.encode().len() > 0x7fff_ffff,
            },
            self@.well_formed(),
            self@.encode().len() <= size_limit() ==> merge_message::<PairingRequest>(
                PairingRequestModel::empty(),
                self@.encode(),
                group_depth_limit(),
            ) == Some(self@),
    {
        proof {
            lemma_pairing_request_well_formed(*self);
            if self@.encode().len() <= size_limit() {
                lemma_pairing_request_roundtrip(self@, group_depth_limit());
            }
        }
        let mut buf = Vec::new();
        self.write_to(&mut buf);
        assert(buf@ =~= self@.encode());
        if buf.len() > 0x7fff_ffff {
            return Err(serialize_error());
        }
        Ok(buf)
    }

    pub fn as_view(&self) -> (r: PairingRequestView<'_>)
        ensures
            r@ == self@,
    {
        PairingRequestView::new(self)
    }

    pub fn as_mut(&mut self) -> (r: PairingRequestMut<'_>)
        ensures
            r@ == old(self)@,
            *final(self) == *final(r.msg),
    {
        PairingRequestMut::new(self)
    }

    pub fn initiator_id(&self) -> (r: &str)
        ensures
            r@ == self@.initiator_id,
    {
        self.initiator_id.as_str()
    }

    pub fn set_initiator_id(&mut self, val: &str)
        ensures
            final(self)@ == (PairingRequestModel { initiator_id: val@, ..old(self)@ }),
    {
        self.initiator_id = val.to_owned();
    }

    pub fn target_id(&self) -> (r: &str)
        ensures
            r@ == self@.target_id,
    {
        self.target_id.as_str()
    }

    pub fn set_target_id(&mut self, val: &str)
        ensures
            final(self)@ == (PairingRequestModel { target_id: val@, ..old(self)@ }),
    {
        self.target_id = val.to_owned();
    }

    pub fn public_key(&self) -> (r: &[u8])
        ensures
            r@ == self@.public_key,
    {
        self.public_key.as_slice()
    }

    pub fn set_public_key(&mut self, val: &[u8])
        ensures
            final(self)@ == (PairingRequestModel { public_key: val@, ..old(self)@ }),
    {
        self.public_key = copy_bytes(val);
    }

    pub fn device_name(&self) -> (r: &str)
        ensures
            r@ == self@.device_name,
    {
        self.device_name.as_str()
    }

    pub fn set_device_name(&mut self, val: &str)
        ensures
            final(self)@ == (PairingRequestModel { device_name: val@, ..old(self)@ }),
    {
        self.device_name = val.to_owned();
    }

    pub fn nonce(&self) -> (r: &[u8])
        ensures
            r@ == self@.nonce,
    {
        self.nonce.as_slice()
    }

    pub fn set_nonce(&mut self, val: &[u8])
        ensures
            final(self)@ == (PairingRequestModel { nonce: val@, ..old(self)@ }),
    {
        self.nonce = copy_bytes(val);
    }

    pub fn timestamp(&self) -> (r: u64)
        ensures
            r == self@.timestamp,
    {
        self.timestamp
    }

    pub fn set_timestamp(&mut self, val: u64)
        ensures
            final(self)@ == (PairingRequestModel { timestamp: val, ..old(self)@ }),
    {
        self.timestamp = val;
    }
}

impl Clone for PairingRequest {
    fn clone(&self) -> (r: Self)
        ensures
            r@ == self@,
    {
        let r = PairingRequest {
            initiator_id: self.initiator_id.clone(),
            target_id: self.target_id.clone(),
            public_key: copy_bytes(self.public_key.as_slice()),
            device_name: self.device_name.clone(),
            nonce: copy_bytes(self.nonce.as_slice()),
            timestamp: self.timestamp,
            unknown: self.unknown.copy(),
        };
        r
    }
}

impl Default for PairingRequest {
    fn default() -> (r: Self)
        ensures
            r@ == PairingRequestModel::empty(),
    {
        Self::new()
    }
}

/// Read access to a `PairingRequest`; the default view reads as the empty message.
#[derive(Clone, Copy)]
pub struct PairingRequestView<'msg> {
    msg: Option<&'msg PairingRequest>,
}

impl<'msg> View for PairingRequestView<'msg> {
    type V = PairingRequestModel;

    closed spec fn view(&self) -> PairingRequestModel {
        match self.msg {
            Some(m) => m@,
            None => PairingRequestModel::empty(),
        }
    }
}

impl<'msg> PairingRequestView<'msg> {
    pub fn new(msg: &'msg PairingRequest) -> (r: Self)
        ensures
            r@ == msg@,
    {
        PairingRequestView { msg: Some(msg) }
    }

    /// An owned copy of the message.
    pub fn to_owned(&self) -> (r: PairingRequest)
        ensures
            r@ == self@,
    {
        match self.msg {
            Some(m) => m.clone(),
            None => PairingRequest::new(),
        }
    }

    /// The wire form, refused when it is longer than `i32::MAX` bytes. The
    /// message is well formed, so the wire form reads back as the message.
    pub fn serialize(&self) -> (r: Result<Vec<u8>, protobuf::SerializeError>)
        ensures
            match r {
                Ok(bytes) => bytes@ == self@.encode() && self@.encode().len() <= 0x7fff_ffff,
                Err(_) => self@.encode().len() > 0x7fff_ffff,
            },
            self@.well_formed(),
            self@.encode().len() <= size_limit() ==> merge_message::<PairingRequest>(
                PairingRequestModel::empty(),
                self@.encode(),
                group_depth_limit(),
            ) == Some(self@),
    {
        match self.msg {
            Some(m) => m.serialize(),
            None => PairingRequest::new().serialize(),
        }
    }

    pub fn initiator_id(self) -> (r: &'msg str)
        ensures
            r@ == self@.initiator_id,
    {
        match self.msg {
            Some(m) => m.initiator_id.as_str(),
            None => {
                proof {
                    reveal_strlit("");
                }
                ""
            },
        }
    }

    pub fn target_id(self) -> (r: &'msg str)
        ensures
            r@ == self@.target_id,
    {
        match self.msg {
            Some(m) => m.target_id.as_str(),
            None => {
                proof {
                    reveal_strlit("");
                }
                ""
            },
        }
    }

    pub fn public_key(self) -> (r: &'msg [u8])
        ensures
            r@ == self@.public_key,
    {
        match self.msg {
            Some(m) => m.public_key.as_slice(),
            None => {
                &[]
            },
        }
    }

    pub fn device_name(self) -> (r: &'msg str)
        ensures
            r@ == self@.device_name,
    {
        match self.msg {
            Some(m) => m.device_name.as_str(),
            None => {
                proof {
                    reveal_strlit("");
                }
                ""
            },
        }
    }

    pub fn nonce(self) -> (r: &'msg [u8])
        ensures
            r@ == self@.nonce,
    {
        match self.msg {
            Some(m) => m.nonce.as_slice(),
            None => {
                &[]
            },
        }
    }

    pub fn timestamp(self) -> (r: u64)
        ensures
            r == self@.timestamp,
    {
        match self.msg {
            Some(m) => m.timestamp,
            None => 0,
        }
    }
}

impl<'msg> Default for PairingRequestView<'msg> {
    fn default() -> (r: Self)
        ensures
            r@ == PairingRequestModel::empty(),
    {
        PairingRequestView { msg: None }
    }
}

/// Write access to a `PairingRequest` held elsewhere.
pub struct PairingRequestMut<'msg> {
    /// The message written through this handle.
    pub msg: &'msg mut PairingRequest,
}

impl<'msg> View for PairingRequestMut<'msg> {
    type V = PairingRequestModel;

    open spec fn view(&self) -> PairingRequestModel {
        (*self.msg)@
    }
}

impl<'msg> PairingRequestMut<'msg> {
    pub fn new(msg: &'msg mut PairingRequest) -> (r: Self)
        ensures
            r@ == old(msg)@,
            *final(msg) == *final(r.msg),
    {
        PairingRequestMut { msg }
    }

    /// An owned copy of the message.
    pub fn to_owned(&self) -> (r: PairingRequest)
        ensures
            r@ == self@,
    {
        self.msg.clone()
    }

    pub fn as_view(&self) -> (r: PairingRequestView<'_>)
        ensures
            r@ == self@,
    {
        PairingRequestView::new(self.msg)
    }

    /// The wire form, refused when it is longer than `i32::MAX` bytes. The
    /// message is well formed, so the wire form reads back as the message.
    pub fn serialize(&self) -> (r: Result<Vec<u8>, protobuf::SerializeError>)
        ensures
            match r {
                Ok(bytes) => bytes@ == self@.encode() && self@.encode().len() <= 0x7fff_ffff,
                Err(_) => self@.encode().len() > 0x7fff_ffff,
            },
            self@.well_formed(),
            self@.encode().len() <= size_limit() ==> merge_message::<PairingRequest>(
                PairingRequestModel::empty(),
                self@.encode(),
                group_depth_limit(),
            ) == Some(self@),
    {
        self.msg.serialize()
    }

    /// Resets every field to its default.
    pub fn clear(&mut self)
        ensures
            final(self)@ == PairingRequestModel::empty(),
            *final(final(self).msg) == *final(old(self).msg),
    {
        self.msg.clear();
    }

    /// Replaces the message by the one `data` encodes.
    pub fn clear_and_parse(&mut self, data: &[u8]) -> (r: Result<(), protobuf::ParseError>)
        ensures
            match merge_message::<PairingRequest>(PairingRequestModel::empty(), data@, group_depth_limit()) {
                Some(m) => r is Ok && final(self)@ == m && m.well_formed(),
                None => r is Err,
            },
            *final(final(self).msg) == *final(old(self).msg),
    {
        self.msg.clear_and_parse(data)
    }

    /// Replaces the message by the one `data` encodes.
    pub fn clear_and_parse_dont_enforce_required(&mut self, data: &[u8]) -> (r: Result<(), protobuf::ParseError>)
        ensures
            match merge_message::<PairingRequest>(PairingRequestModel::empty(), data@, group_depth_limit()) {
                Some(m) => r is Ok && final(self)@ == m && m.well_formed(),
                None => r is Err,
            },
            *final(final(self).msg) == *final(old(self).msg),
    {
        self.msg.clear_and_parse_dont_enforce_required(data)
    }

    /// Makes the message a copy of `src`.
    pub fn copy_from(&mut self, src: PairingRequestView<'_>)
        ensures
            final(self)@ == src@,
            *final(final(self).msg) == *final(old(self).msg),
    {
        self.msg.copy_from(src);
    }

    /// Merges `src` into the message.
    pub fn merge_from(&mut self, src: PairingRequestView<'_>)
        ensures
            final(self)@ == old(self)@.merge(src@),
            *final(final(self).msg) == *final(old(self).msg),
    {
        self.msg.merge_from(src);
    }

    pub fn initiator_id(&self) -> (r: &str)
        ensures
            r@ == self@.initiator_id,
    {
        self.msg.initiator_id()
    }

    pub fn set_initiator_id(&mut self, val: &str)
        ensures
            final(self)@ == (PairingRequestModel { initiator_id: val@, ..old(self)@ }),
            *final(final(self).msg) == *final(old(self).msg),
    {
        self.msg.set_initiator_id(val);
    }

    pub fn target_id(&self) -> (r: &str)
        ensures
            r@ == self@.target_id,
    {
        self.msg.target_id()
    }

    pub fn set_target_id(&mut self, val: &str)
        ensures
            final(self)@ == (PairingRequestModel { target_id: val@, ..old(self)@ }),
            *final(final(self).msg) == *final(old(self).msg),
    {
        self.msg.set_target_id(val);
    }

    pub fn public_key(&self) -> (r: &[u8])
        ensures
            r@ == self@.public_key,
    {
        self.msg.public_key()
    }

    pub fn set_public_key(&mut self, val: &[u8])
        ensures
            final(self)@ == (PairingRequestModel { public_key: val@, ..old(self)@ }),
            *final(final(self).msg) == *final(old(self).msg),
    {
        self.msg.set_public_key(val);
    }

    pub fn device_name(&self) -> (r: &str)
        ensures
            r@ == self@.device_name,
    {
        self.msg.device_name()
    }

    pub fn set_device_name(&mut self, val: &str)
        ensures
            final(self)@ == (PairingRequestModel { device_name: val@, ..old(self)@ }),
            *final(final(self).msg) == *final(old(self).msg),
    {
        self.msg.set_device_name(val);
    }

    pub fn nonce(&self) -> (r: &[u8])
        ensures
            r@ == self@.nonce,
    {
        self.msg.nonce()
    }

    pub fn set_nonce(&mut self, val: &[u8])
        ensures
            final(self)@ == (PairingRequestModel { nonce: val@, ..old(self)@ }),
            *final(final(self).msg) == *final(old(self).msg),
    {
        self.msg.set_nonce(val);
    }

    pub fn timestamp(&self) -> (r: u64)
        ensures
            r == self@.timestamp,
    {
        self.msg.timestamp()
    }

    pub fn set_timestamp(&mut self, val: u64)
        ensures
            final(self)@ == (PairingRequestModel { timestamp: val, ..old(self)@ }),
            *final(final(self).msg) == *final(old(self).msg),
    {
        self.msg.set_timestamp(val);
    }
}

/// The content of a `PairingResponse`.
pub struct PairingResponseModel {
    pub responder_id: Seq<char>,
    pub initiator_id: Seq<char>,
    pub public_key: Seq<u8>,
    pub signed_nonce: Seq<u8>,
    pub shared_secret: Seq<u8>,
    pub timestamp: u64,
    /// The fields read but not understood, as they came, in order.
    pub unknown: Seq<u8>,
}

impl PairingResponseModel {
    /// The message with every field at its default.
    pub open spec fn empty() -> Self {
        PairingResponseModel {
            responder_id: Seq::empty(),
            initiator_id: Seq::empty(),
            public_key: Seq::empty(),
            signed_nonce: Seq::empty(),
            shared_secret: Seq::empty(),
            timestamp: 0,
            unknown: Seq::empty(),
        }
    }

    /// The wire form: fields in number order, defaults and absent
    /// sub-messages left out, then the unknown fields as they came.
    #[verifier::opaque]
    pub open spec fn encode(self) -> Seq<u8> {
        bytes_field(1, encode_utf8(self.responder_id))
            + bytes_field(2, encode_utf8(self.initiator_id))
            + bytes_field(3, self.public_key)
            + bytes_field(4, self.signed_nonce)
            + bytes_field(5, self.shared_secret)
            + varint_field(6, self.timestamp)
            + self.unknown
    }

    /// Whether a field is kept, as it came, among the unknown fields: its
    /// number is not one of this message's, or it comes with another wire
    /// type than its field is written with.
    pub open spec fn keeps_unknown(field: nat, value: WireValue) -> bool {
        if field == 1 {
            !(value is Delimited)
        } else if field == 2 {
            !(value is Delimited)
        } else if field == 3 {
            !(value is Delimited)
        } else if field == 4 {
            !(value is Delimited)
        } else if field == 5 {
            !(value is Delimited)
        } else if field == 6 {
            !(value is Varint)
        } else {
            true
        }
    }

    /// `keeps_unknown` as a function.
    pub open spec fn keeps() -> spec_fn(nat, WireValue) -> bool {
        |field: nat, value: WireValue| PairingResponseModel::keeps_unknown(field, value)
    }

    /// How one field of the wire form changes the message; `raw` is the
    /// field as it came. `None` when the field's content is malformed.
    #[verifier::opaque]
    pub open spec fn apply(self, field: nat, value: WireValue, raw: Seq<u8>, depth: nat) -> Option<Self> {
        if Self::keeps_unknown(field, value) {
            Some(PairingResponseModel { unknown: self.unknown + raw, ..self })
        } else if field == 1 {
            match value {
                WireValue::Delimited(b) => if valid_utf8(b) {
                    Some(PairingResponseModel { responder_id: decode_utf8(b), ..self })
                } else {
                    None
                },
                _ => Some(self),
            }
        } else if field == 2 {
            match value {
                WireValue::Delimited(b) => if valid_utf8(b) {
                    Some(PairingResponseModel { initiator_id: decode_utf8(b), ..self })
                } else {
                    None
                },
                _ => Some(self),
            }
        } else if field == 3 {
            match value {
                WireValue::Delimited(b) => Some(PairingResponseModel { public_key: b, ..self }),
                _ => Some(self),
            }
        } else if field == 4 {
            match value {
                WireValue::Delimited(b) => Some(PairingResponseModel { signed_nonce: b, ..self }),
                _ => Some(self),
            }
        } else if field == 5 {
            match value {
                WireValue::Delimited(b) => Some(PairingResponseModel { shared_secret: b, ..self }),
                _ => Some(self),
            }
        } else if field == 6 {
            match value {
                WireValue::Varint(v) => Some(PairingResponseModel { timestamp: v, ..self }),
                _ => Some(self),
            }
        } else {
            Some(self)
        }
    }

    /// `other` merged into this message, as protobuf merges: a scalar, string
    /// or bytes field set in `other` replaces the one here, repeated fields
    /// are appended, sub-messages are merged, map entries inserted and
    /// unknown fields appended.
    #[verifier::opaque]
    pub open spec fn merge(self, other: Self) -> Self {
        PairingResponseModel {
            responder_id: if other.responder_id.len() > 0 { other.responder_id } else { self.responder_id },
            initiator_id: if other.initiator_id.len() > 0 { other.initiator_id } else { self.initiator_id },
            public_key: if other.public_key.len() > 0 { other.public_key } else { self.public_key },
            signed_nonce: if other.signed_nonce.len() > 0 { other.signed_nonce } else { self.signed_nonce },
            shared_secret: if other.shared_secret.len() > 0 { other.shared_secret } else { self.shared_secret },
            timestamp: if other.timestamp != 0 { other.timestamp } else { self.timestamp },
            unknown: self.unknown + other.unknown,
        }
    }

    /// What writing the message out and reading it back relies on: the
    /// unknown fields are whole fields this message does not read, and
    /// the same holds of every sub-message.
    pub open spec fn well_formed(self) -> bool {
        &&& unknown_fields::<PairingResponse>(self.unknown, group_depth_limit())
    }

    /// What reading the wire form back with `depth` levels of nesting left
    /// relies on: the message is well formed, its unknown fields read as
    /// whole fields with `depth` levels, and each sub-message reads back
    /// with one level less.
    pub open spec fn well_formed_at(self, depth: nat) -> bool {
        &&& self.well_formed()
        &&& unknown_fields::<PairingResponse>(self.unknown, depth)
    }
}

/// Reading the `responder_id` field as `b` writes it merges it into `m`.
proof fn lemma_pairing_response_read_responder_id(m: PairingResponseModel, b: PairingResponseModel, rest: Seq<u8>, depth: nat)
    requires
        bytes_field(1, encode_utf8(b.responder_id)).len() <= size_limit(),
    ensures
        merge_message::<PairingResponse>(m, bytes_field(1, encode_utf8(b.responder_id)) + rest, depth) == merge_message::<PairingResponse>(
            PairingResponseModel { responder_id: if b.responder_id.len() > 0 { b.responder_id } else { m.responder_id }, ..m },
            rest,
            depth,
        ),
{
    let next = PairingResponseModel { responder_id: if b.responder_id.len() > 0 { b.responder_id } else { m.responder_id }, ..m };
    reveal(PairingResponseModel::apply);
    encode_utf8_decode_utf8(b.responder_id);
    encode_utf8_valid_utf8(b.responder_id);
    lemma_merge_bytes_field::<PairingResponse>(m, 1, encode_utf8(b.responder_id), rest, next, depth);
}

/// Reading the `initiator_id` field as `b` writes it merges it into `m`.
proof fn lemma_pairing_response_read_initiator_id(m: PairingResponseModel, b: PairingResponseModel, rest: Seq<u8>, depth: nat)
    requires
        bytes_field(2, encode_utf8(b.initiator_id)).len() <= size_limit(),
    ensures
        merge_message::<PairingResponse>(m, bytes_field(2, encode_utf8(b.initiator_id)) + rest, depth) == merge_message::<PairingResponse>(
            PairingResponseModel { initiator_id: if b.initiator_id.len() > 0 { b.initiator_id } else { m.initiator_id }, ..m },
            rest,
            depth,
        ),
{
    let next = PairingResponseModel { initiator_id: if b.initiator_id.len() > 0 { b.initiator_id } else { m.initiator_id }, ..m };
    reveal(PairingResponseModel::apply);
    encode_utf8_decode_utf8(b.initiator_id);
    encode_utf8_valid_utf8(b.initiator_id);
    lemma_merge_bytes_field::<PairingResponse>(m, 2, encode_utf8(b.initiator_id), rest, next, depth);
}

/// Reading the `public_key` field as `b` writes it merges it into `m`.
proof fn lemma_pairing_response_read_public_key(m: PairingResponseModel, b: PairingResponseModel, rest: Seq<u8>, depth: nat)
    requires
        bytes_field(3, b.public_key).len() <= size_limit(),
    ensures
        merge_message::<PairingResponse>(m, bytes_field(3, b.public_key) + rest, depth) == merge_message::<PairingResponse>(
            PairingResponseModel { public_key: if b.public_key.len() > 0 { b.public_key } else { m.public_key }, ..m },
            rest,
            depth,
        ),
{
    let next = PairingResponseModel { public_key: if b.public_key.len() > 0 { b.public_key } else { m.public_key }, ..m };
    reveal(PairingResponseModel::apply);
    lemma_merge_bytes_field::<PairingResponse>(m, 3, b.public_key, rest, next, depth);
}

/// Reading the `signed_nonce` field as `b` writes it merges it into `m`.
proof fn lemma_pairing_response_read_signed_nonce(m: PairingResponseModel, b: PairingResponseModel, rest: Seq<u8>, depth: nat)
    requires
        bytes_field(4, b.signed_nonce).len() <= size_limit(),
    ensures
        merge_message::<PairingResponse>(m, bytes_field(4, b.signed_nonce) + rest, depth) == merge_message::<PairingResponse>(
            PairingResponseModel { signed_nonce: if b.signed_nonce.len() > 0 { b.signed_nonce } else { m.signed_nonce }, ..m },
            rest,
            depth,
        ),
{
    let next = PairingResponseModel { signed_nonce: if b.signed_nonce.len() > 0 { b.signed_nonce } else { m.signed_nonce }, ..m };
    reveal(PairingResponseModel::apply);
    lemma_merge_bytes_field::<PairingResponse>(m, 4, b.signed_nonce, rest, next, depth);
}

/// Reading the `shared_secret` field as `b` writes it merges it into `m`.
proof fn lemma_pairing_response_read_shared_secret(m: PairingResponseModel, b: PairingResponseModel, rest: Seq<u8>, depth: nat)
    requires
        bytes_field(5, b.shared_secret).len() <= size_limit(),
    ensures
        merge_message::<PairingResponse>(m, bytes_field(5, b.shared_secret) + rest, depth) == merge_message::<PairingResponse>(
            PairingResponseModel { shared_secret: if b.shared_secret.len() > 0 { b.shared_secret } else { m.shared_secret }, ..m },
            rest,
            depth,
        ),
{
    let next = PairingResponseModel { shared_secret: if b.shared_secret.len() > 0 { b.shared_secret } else { m.shared_secret }, ..m };
    reveal(PairingResponseModel::apply);
    lemma_merge_bytes_field::<PairingResponse>(m, 5, b.shared_secret, rest, next, depth);
}

/// Reading the `timestamp` field as `b` writes it merges it into `m`.
proof fn lemma_pairing_response_read_timestamp(m: PairingResponseModel, b: PairingResponseModel, rest: Seq<u8>, depth: nat)
    requires
        varint_field(6, b.timestamp).len() <= size_limit(),
    ensures
        merge_message::<PairingResponse>(m, varint_field(6, b.timestamp) + rest, depth) == merge_message::<PairingResponse>(
            PairingResponseModel { timestamp: if b.timestamp != 0 { b.timestamp } else { m.timestamp }, ..m },
            rest,
            depth,
        ),
{
    let next = PairingResponseModel { timestamp: if b.timestamp != 0 { b.timestamp } else { m.timestamp }, ..m };
    reveal(PairingResponseModel::apply);
    lemma_merge_varint_field::<PairingResponse>(m, 6, b.timestamp, rest, next, depth);
}

/// Reading the unknown fields as `b` writes them adds them to those of `m`.
proof fn lemma_pairing_response_read_unknown(m: PairingResponseModel, b: PairingResponseModel, rest: Seq<u8>, depth: nat)
    requires
        b.unknown.len() <= size_limit(),
        b.well_formed_at(depth),
    ensures
        merge_message::<PairingResponse>(m, b.unknown + rest, depth) == merge_message::<PairingResponse>(
            PairingResponseModel { unknown: m.unknown + b.unknown, ..m },
            rest,
            depth,
        ),
{
    lemma_merge_unknown::<PairingResponse>(m, b.unknown, rest, depth);
}

/// Reading the wire form of `b` into `a`, with `depth` levels of nesting left,
/// gives `b` merged into `a`.
pub proof fn lemma_pairing_response_merge_wire(a: PairingResponseModel, b: PairingResponseModel, depth: nat)
    requires
        b.encode().len() <= size_limit(),
        b.well_formed_at(depth),
    ensures
        merge_message::<PairingResponse>(a, b.encode(), depth) == Some(a.merge(b)),
{
    let c1 = bytes_field(1, encode_utf8(b.responder_id));
    let c2 = bytes_field(2, encode_utf8(b.initiator_id));
    let c3 = bytes_field(3, b.public_key);
    let c4 = bytes_field(4, b.signed_nonce);
    let c5 = bytes_field(5, b.shared_secret);
    let c6 = varint_field(6, b.timestamp);
    let c7 = b.unknown;
    assert(b.encode() == c1 + c2 + c3 + c4 + c5 + c6 + c7) by {
        reveal(PairingResponseModel::encode);
    }
    let m0 = a;
    let m1 = PairingResponseModel { responder_id: if b.responder_id.len() > 0 { b.responder_id } else { m0.responder_id }, ..m0 };
    lemma_pairing_response_read_responder_id(m0, b, Seq::empty(), depth);
    assert(c1 + Seq::empty() =~= c1);
    lemma_merge_nothing::<PairingResponse>(m1, depth);
    let m2 = PairingResponseModel { initiator_id: if b.initiator_id.len() > 0 { b.initiator_id } else { m1.initiator_id }, ..m1 };
    lemma_pairing_response_read_initiator_id(m1, b, Seq::empty(), depth);
    assert(c2 + Seq::empty() =~= c2);
    lemma_merge_nothing::<PairingResponse>(m2, depth);
    lemma_merge_concat::<PairingResponse>(a, c1, c2, depth);
    let m3 = PairingResponseModel { public_key: if b.public_key.len() > 0 { b.public_key } else { m2.public_key }, ..m2 };
    lemma_pairing_response_read_public_key(m2, b, Seq::empty(), depth);
    assert(c3 + Seq::empty() =~= c3);
    lemma_merge_nothing::<PairingResponse>(m3, depth);
    lemma_merge_concat::<PairingResponse>(a, c1 + c2, c3, depth);
    let m4 = PairingResponseModel { signed_nonce: if b.signed_nonce.len() > 0 { b.signed_nonce } else { m3.signed_nonce }, ..m3 };
    lemma_pairing_response_read_signed_nonce(m3, b, Seq::empty(), depth);
    assert(c4 + Seq::empty() =~= c4);
    lemma_merge_nothing::<PairingResponse>(m4, depth);
    lemma_merge_concat::<PairingResponse>(a, c1 + c2 + c3, c4, depth);
    let m5 = PairingResponseModel { shared_secret: if b.shared_secret.len() > 0 { b.shared_secret } else { m4.shared_secret }, ..m4 };
    lemma_pairing_response_read_shared_secret(m4, b, Seq::empty(), depth);
    assert(c5 + Seq::empty() =~= c5);
    lemma_merge_nothing::<PairingResponse>(m5, depth);
    lemma_merge_concat::<PairingResponse>(a, c1 + c2 + c3 + c4, c5, depth);
    let m6 = PairingResponseModel { timestamp: if b.timestamp != 0 { b.timestamp } else { m5.timestamp }, ..m5 };
    lemma_pairing_response_read_timestamp(m5, b, Seq::empty(), depth);
    assert(c6 + Seq::empty() =~= c6);
    lemma_merge_nothing::<PairingResponse>(m6, depth);
    lemma_merge_concat::<PairingResponse>(a, c1 + c2 + c3 + c4 + c5, c6, depth);
    let m7 = PairingResponseModel { unknown: m6.unknown + b.unknown, ..m6 };
    lemma_pairing_response_read_unknown(m6, b, Seq::empty(), depth);
    assert(c7 + Seq::empty() =~= c7);
    lemma_merge_nothing::<PairingResponse>(m7, depth);
    lemma_merge_concat::<PairingResponse>(a, c1 + c2 + c3 + c4 + c5 + c6, c7, depth);
    assert(m7 == a.merge(b)) by {
        reveal(PairingResponseModel::merge);
    }
}

/// Merging the empty message changes nothing.
pub proof fn lemma_pairing_response_merge_empty(a: PairingResponseModel)
    ensures
        a.merge(PairingResponseModel::empty()) == a,
{
    reveal(PairingResponseModel::merge);
    assert(a.unknown + Seq::empty() =~= a.unknown);
    assert(a.merge(PairingResponseModel::empty()) =~= a);
}

/// Merging a message into the empty one gives that message.
pub proof fn lemma_pairing_response_empty_merge(b: PairingResponseModel)
    ensures
        PairingResponseModel::empty().merge(b) == b,
{
    reveal(PairingResponseModel::merge);
    assert(b.responder_id.len() == 0 ==> b.responder_id =~= Seq::<char>::empty());
    assert(b.initiator_id.len() == 0 ==> b.initiator_id =~= Seq::<char>::empty());
    assert(b.public_key.len() == 0 ==> b.public_key =~= Seq::<u8>::empty());
    assert(b.signed_nonce.len() == 0 ==> b.signed_nonce =~= Seq::<u8>::empty());
    assert(b.shared_secret.len() == 0 ==> b.shared_secret =~= Seq::<u8>::empty());
    assert(Seq::empty() + b.unknown =~= b.unknown);
    assert(PairingResponseModel::empty().merge(b) =~= b);
}

/// Writing a message out and reading it back, with `depth` levels of
/// nesting left (`group_depth_limit()` for a message read on its own),
/// gives the same message.
pub proof fn lemma_pairing_response_roundtrip(m: PairingResponseModel, depth: nat)
    requires
        m.encode().len() <= size_limit(),
        m.well_formed_at(depth),
    ensures
        merge_message::<PairingResponse>(PairingResponseModel::empty(), m.encode(), depth) == Some(m),
{
    lemma_pairing_response_merge_wire(PairingResponseModel::empty(), m, depth);
    lemma_pairing_response_empty_merge(m);
}

/// Reading two encoded messages written one after the other, with `depth`
/// levels of nesting left, gives the second merged into the first.
pub proof fn lemma_pairing_response_concat(a: PairingResponseModel, b: PairingResponseModel, depth: nat)
    requires
        a.encode().len() <= size_limit(),
        b.encode().len() <= size_limit(),
        a.well_formed_at(depth),
        b.well_formed_at(depth),
    ensures
        merge_message::<PairingResponse>(PairingResponseModel::empty(), a.encode() + b.encode(), depth) == Some(a.merge(b)),
{
    lemma_pairing_response_roundtrip(a, depth);
    lemma_merge_concat::<PairingResponse>(PairingResponseModel::empty(), a.encode(), b.encode(), depth);
    lemma_pairing_response_merge_wire(a, b, depth);
}

/// Merging two well-formed messages gives a well-formed message.
pub proof fn lemma_pairing_response_merge_well_formed(a: PairingResponseModel, b: PairingResponseModel)
    requires
        a.well_formed(),
        b.well_formed(),
    ensures
        a.merge(b).well_formed(),
{
    reveal(PairingResponseModel::merge);
    lemma_unknown_fields_concat::<PairingResponse>(a.unknown, b.unknown, group_depth_limit());
}

/// Reading one whole field into a well-formed message keeps it well formed.
proof fn lemma_pairing_response_apply_well_formed(m: PairingResponseModel, field: nat, value: WireValue, raw: Seq<u8>, depth: nat)
    requires
        m.well_formed(),
        depth <= group_depth_limit(),
        decode_field(raw, depth) == Some((field, value, raw.len())),
        m.apply(field, value, raw, depth) is Some,
    ensures
        m.apply(field, value, raw, depth)->0.well_formed(),
{
    reveal(PairingResponseModel::apply);
    if PairingResponseModel::keeps_unknown(field, value) {
        lemma_decode_field_deeper(raw, depth, group_depth_limit());
        lemma_unknown_field::<PairingResponse>(raw, field, value, group_depth_limit());
        lemma_unknown_fields_concat::<PairingResponse>(m.unknown, raw, group_depth_limit());
    }
}

/// Reading whole fields into a well-formed message, with at most
/// `group_depth_limit()` levels of nesting left, keeps it well formed.
pub proof fn lemma_pairing_response_parse_well_formed(m: PairingResponseModel, s: Seq<u8>, depth: nat)
    requires
        m.well_formed(),
        depth <= group_depth_limit(),
        merge_message::<PairingResponse>(m, s, depth) is Some,
    ensures
        merge_message::<PairingResponse>(m, s, depth)->0.well_formed(),
{
    assert forall|x: PairingResponseModel, field: nat, value: WireValue, raw: Seq<u8>|
        x.well_formed() && decode_field(raw, depth) == Some((field, value, raw.len())) && #[trigger] PairingResponse::apply_wire(
            x,
            field,
            value,
            raw,
            depth,
        ) is Some implies PairingResponse::apply_wire(x, field, value, raw, depth)->0.well_formed() by {
        lemma_pairing_response_apply_well_formed(x, field, value, raw, depth);
    }
    lemma_merge_preserves::<PairingResponse>(m, s, |x: PairingResponseModel| x.well_formed(), depth);
}

/// The answer to a `PairingRequest`: the responder's key, the signed nonce and the shared secret.
pub struct PairingResponse {
    responder_id: String,
    initiator_id: String,
    public_key: Vec<u8>,
    signed_nonce: Vec<u8>,
    shared_secret: Vec<u8>,
    timestamp: u64,
    unknown: PairingResponseUnknown,
}

impl View for PairingResponse {
    type V = PairingResponseModel;

    closed spec fn view(&self) -> PairingResponseModel {
        PairingResponseModel {
            responder_id: self.responder_id@,
            initiator_id: self.initiator_id@,
            public_key: self.public_key@,
            signed_nonce: self.signed_nonce@,
            shared_secret: self.shared_secret@,
            timestamp: self.timestamp,
            unknown: self.unknown@,
        }
    }
}

/// The unknown fields of a `PairingResponse`: whole fields it does not read, as they
/// came, in order.
struct PairingResponseUnknown {
    bytes: Vec<u8>,
}

impl View for PairingResponseUnknown {
    type V = Seq<u8>;

    closed spec fn view(&self) -> Seq<u8> {
        if unknown_run(self.bytes@, PairingResponseModel::keeps(), group_depth_limit()) {
            self.bytes@
        } else {
            Seq::empty()
        }
    }
}

impl PairingResponseUnknown {
    #[verifier::type_invariant]
    closed spec fn whole(self) -> bool {
        unknown_run(self.bytes@, PairingResponseModel::keeps(), group_depth_limit())
    }

    fn new() -> (r: Self)
        ensures
            r@ == Seq::<u8>::empty(),
    {
        proof {
            lemma_unknown_run_empty(PairingResponseModel::keeps(), group_depth_limit());
        }
        PairingResponseUnknown { bytes: Vec::new() }
    }

    /// Adds one whole field that the message does not read.
    fn push_field(&mut self, raw: &[u8], Ghost(field): Ghost<nat>, Ghost(value): Ghost<WireValue>)
        requires
            decode_field(raw@, group_depth_limit()) == Some((field, value, raw@.len())),
            PairingResponseModel::keeps_unknown(field, value),
        ensures
            final(self)@ == old(self)@ + raw@,
    {
        proof {
            use_type_invariant(&*self);
            lemma_unknown_run_field(raw@, field, value, PairingResponseModel::keeps(), group_depth_limit());
            lemma_unknown_run_concat(self.bytes@, raw@, PairingResponseModel::keeps(), group_depth_limit());
            lemma_unknown_run_empty(PairingResponseModel::keeps(), group_depth_limit());
        }
        let mut bytes = Vec::new();
        std::mem::swap(&mut bytes, &mut self.bytes);
        append_bytes(&mut bytes, raw);
        self.bytes = bytes;
    }

    /// Adds the unknown fields of another message of the same kind.
    fn append(&mut self, other: &Self)
        ensures
            final(self)@ == old(self)@ + other@,
    {
        proof {
            use_type_invariant(&*self);
            use_type_invariant(other);
            lemma_unknown_run_concat(self.bytes@, other.bytes@, PairingResponseModel::keeps(), group_depth_limit());
            lemma_unknown_run_empty(PairingResponseModel::keeps(), group_depth_limit());
        }
        let mut bytes = Vec::new();
        std::mem::swap(&mut bytes, &mut self.bytes);
        append_bytes(&mut bytes, other.bytes.as_slice());
        self.bytes = bytes;
    }

    fn as_slice(&self) -> (r: &[u8])
        ensures
            r@ == self@,
    {
        proof {
            use_type_invariant(self);
        }
        self.bytes.as_slice()
    }

    fn copy(&self) -> (r: Self)
        ensures
            r@ == self@,
    {
        proof {
            use_type_invariant(self);
        }
        PairingResponseUnknown { bytes: copy_bytes(self.bytes.as_slice()) }
    }
}

impl WireMessage for PairingResponse {
    open spec fn apply_wire(message: PairingResponseModel, field: nat, value: WireValue, raw: Seq<u8>, depth: nat) -> Option<PairingResponseModel> {
        message.apply(field, value, raw, depth)
    }

    open spec fn keeps_unknown(field: nat, value: WireValue) -> bool {
        PairingResponseModel::keeps_unknown(field, value)
    }

    open spec fn add_unknown(message: PairingResponseModel, raw: Seq<u8>) -> PairingResponseModel {
        PairingResponseModel { unknown: message.unknown + raw, ..message }
    }

    proof fn lemma_apply_unknown(message: PairingResponseModel, field: nat, value: WireValue, raw: Seq<u8>, depth: nat) {
        reveal(PairingResponseModel::apply);
    }

    proof fn lemma_add_unknown(message: PairingResponseModel, a: Seq<u8>, b: Seq<u8>) {
        assert(message.unknown + a + b =~= message.unknown + (a + b));
        assert(message.unknown + Seq::<u8>::empty() =~= message.unknown);
    }

    fn apply_field(
        &mut self,
        data: &[u8],
        field: u32,
        value: FieldValue,
        start: usize,
        end: usize,
        depth: u32,
    ) -> (ok: bool) {
        proof {
            reveal(PairingResponseModel::apply);
        }
        if field == 1 {
            if let FieldValue::Delimited(from, to) = value {
                match proto_string(&data[from..to]) {
                    Some(text) => self.responder_id = text,
                    None => return false,
                }
                return true;
            }
        } else if field == 2 {
            if let FieldValue::Delimited(from, to) = value {
                match proto_string(&data[from..to]) {
                    Some(text) => self.initiator_id = text,
                    None => return false,
                }
                return true;
            }
        } else if field == 3 {
            if let FieldValue::Delimited(from, to) = value {
                self.public_key = copy_bytes(&data[from..to]);
                return true;
            }
        } else if field == 4 {
            if let FieldValue::Delimited(from, to) = value {
                self.signed_nonce = copy_bytes(&data[from..to]);
                return true;
            }
        } else if field == 5 {
            if let FieldValue::Delimited(from, to) = value {
                self.shared_secret = copy_bytes(&data[from..to]);
                return true;
            }
        } else if field == 6 {
            if let FieldValue::Varint(v) = value {
                self.timestamp = v;
                return true;
            }
        }
        proof {
            lemma_decode_field_deeper(data@.subrange(start as int, end as int), depth as nat, group_depth_limit());
        }
        self.unknown.push_field(&data[start..end], Ghost(field as nat), Ghost(value.wire(data@)));
        true
    }
}

/// The content of every `PairingResponse` is well formed.
pub proof fn lemma_pairing_response_well_formed(m: PairingResponse)
    ensures
        m@.well_formed(),
{
    lemma_unknown_run_fields::<PairingResponse>(m.unknown.bytes@, PairingResponseModel::keeps(), group_depth_limit());
}

impl PairingResponse {
    /// A message with every field at its default.
    pub fn new() -> (r: Self)
        ensures
            r@ == PairingResponseModel::empty(),
    {
        let r = PairingResponse {
            responder_id: String::new(),
            initiator_id: String::new(),
            public_key: Vec::new(),
            signed_nonce: Vec::new(),
            shared_secret: Vec::new(),
            timestamp: 0,
            unknown: PairingResponseUnknown::new(),
        };
        r
    }

    /// Reads a message from its wire form.
    pub fn parse(data: &[u8]) -> (r: Result<Self, protobuf::ParseError>)
        ensures
            match merge_message::<PairingResponse>(PairingResponseModel::empty(), data@, group_depth_limit()) {
                Some(m) => r matches Ok(msg) && msg@ == m && m.well_formed(),
                None => r is Err,
            },
    {
        proof {
            if merge_message::<PairingResponse>(PairingResponseModel::empty(), data@, group_depth_limit()) is Some {
                lemma_pairing_response_parse_well_formed(PairingResponseModel::empty(), data@, group_depth_limit());
            }
        }
        let mut msg = Self::new();
        if merge_bytes(&mut msg, data, 100) {
            Ok(msg)
        } else {
            Err(parse_error())
        }
    }

    /// Same as `parse`: the message has no required fields.
    pub fn parse_dont_enforce_required(data: &[u8]) -> (r: Result<Self, protobuf::ParseError>)
        ensures
            match merge_message::<PairingResponse>(PairingResponseModel::empty(), data@, group_depth_limit()) {
                Some(m) => r matches Ok(msg) && msg@ == m && m.well_formed(),
                None => r is Err,
            },
    {
        Self::parse(data)
    }

    /// Resets every field to its default.
    pub fn clear(&mut self)
        ensures
            final(self)@ == PairingResponseModel::empty(),
    {
        *self = PairingResponse::new();
    }

    /// Replaces the message by the one `data` encodes; on an error what the
    /// message then holds is unspecified.
    pub fn clear_and_parse(&mut self, data: &[u8]) -> (r: Result<(), protobuf::ParseError>)
        ensures
            match merge_message::<PairingResponse>(PairingResponseModel::empty(), data@, group_depth_limit()) {
                Some(m) => r is Ok && final(self)@ == m && m.well_formed(),
                None => r is Err,
            },
    {
        proof {
            if merge_message::<PairingResponse>(PairingResponseModel::empty(), data@, group_depth_limit()) is Some {
                lemma_pairing_response_parse_well_formed(PairingResponseModel::empty(), data@, group_depth_limit());
            }
        }
        *self = PairingResponse::new();
        if merge_bytes(self, data, 100) {
            Ok(())
        } else {
            Err(parse_error())
        }
    }

    /// Same as `clear_and_parse`: the message has no required fields; on an error what the
    /// message then holds is unspecified.
    pub fn clear_and_parse_dont_enforce_required(&mut self, data: &[u8]) -> (r: Result<(), protobuf::ParseError>)
        ensures
            match merge_message::<PairingResponse>(PairingResponseModel::empty(), data@, group_depth_limit()) {
                Some(m) => r is Ok && final(self)@ == m && m.well_formed(),
                None => r is Err,
            },
    {
        self.clear_and_parse(data)
    }

    /// Makes this message a copy of `src`.
    pub fn copy_from(&mut self, src: PairingResponseView<'_>)
        ensures
            final(self)@ == src@,
    {
        *self = src.to_owned();
    }

    /// Moves the content of `src` here, leaving `src` empty.
    pub fn take_from(&mut self, src: &mut PairingResponse)
        ensures
            final(self)@ == old(src)@,
            final(src)@ == PairingResponseModel::empty(),
    {
        let mut taken = PairingResponse::new();
        std::mem::swap(&mut taken, src);
        *self = taken;
    }

    /// Merges `src` into this message (see `merge` on the model).
    pub fn merge_from(&mut self, src: PairingResponseView<'_>)
        ensures
            final(self)@ == old(self)@.merge(src@),
    {
        match src.msg {
            Some(other) => self.merge_fields_from(other),
            None => {
                proof {
                    lemma_pairing_response_merge_empty(self@);
                }
            },
        }
    }

    fn merge_fields_from(&mut self, other: &PairingResponse)
        ensures
            final(self)@ == old(self)@.merge(other@),
    {
        proof {
            reveal(PairingResponseModel::merge);
        }
        let ghost start = self@;
        if !other.responder_id.as_str().is_empty() {
            self.responder_id = other.responder_id.clone();
        }
        if !other.initiator_id.as_str().is_empty() {
            self.initiator_id = other.initiator_id.clone();
        }
        if other.public_key.len() > 0 {
            self.public_key = copy_bytes(other.public_key.as_slice());
        }
        if other.signed_nonce.len() > 0 {
            self.signed_nonce = copy_bytes(other.signed_nonce.as_slice());
        }
        if other.shared_secret.len() > 0 {
            self.shared_secret = copy_bytes(other.shared_secret.as_slice());
        }
        if other.timestamp != 0 {
            self.timestamp = other.timestamp;
        }
        self.unknown.append(&other.unknown);
        assert(self@ =~= start.merge(other@));
    }

    /// Appends the wire form to `buf`.
    pub fn write_to(&self, buf: &mut Vec<u8>)
        ensures
            final(buf)@ == old(buf)@ + self@.encode(),
    {
        let ghost start = buf@;
        let ghost c1 = bytes_field(1, encode_utf8(self@.responder_id));
        let ghost c2 = bytes_field(2, encode_utf8(self@.initiator_id));
        let ghost c3 = bytes_field(3, self@.public_key);
        let ghost c4 = bytes_field(4, self@.signed_nonce);
        let ghost c5 = bytes_field(5, self@.shared_secret);
        let ghost c6 = varint_field(6, self@.timestamp);
        let ghost c7 = self@.unknown;
        write_bytes_field(buf, 1, self.responder_id.as_str().as_bytes());
        let ghost mut written = c1;
        assert(buf@ == start + written);
        write_bytes_field(buf, 2, self.initiator_id.as_str().as_bytes());
        proof {
            lemma_concat_associative(start, written, c2);
            written = written + c2;
        }
        assert(buf@ == start + written);
        write_bytes_field(buf, 3, self.public_key.as_slice());
        proof {
            lemma_concat_associative(start, written, c3);
            written = written + c3;
        }
        assert(buf@ == start + written);
        write_bytes_field(buf, 4, self.signed_nonce.as_slice());
        proof {
            lemma_concat_associative(start, written, c4);
            written = written + c4;
        }
        assert(buf@ == start + written);
        write_bytes_field(buf, 5, self.shared_secret.as_slice());
        proof {
            lemma_concat_associative(start, written, c5);
            written = written + c5;
        }
        assert(buf@ == start + written);
        write_varint_field(buf, 6, self.timestamp);
        proof {
            lemma_concat_associative(start, written, c6);
            written = written + c6;
        }
        assert(buf@ == start + written);
        append_bytes(buf, self.unknown.as_slice());
        proof {
            lemma_concat_associative(start, written, c7);
            written = written + c7;
        }
        assert(buf@ == start + written);
        assert(self@.encode() == written) by {
            assert(written == c1 + c2 + c3 + c4 + c5 + c6 + c7);
            reveal(PairingResponseModel::encode);
        }
    }

    /// The wire form, refused when it is longer than `i32::MAX` bytes. The
    /// message is well formed, so the wire form reads back as the message.
    pub fn serialize(&self) -> (r: Result<Vec<u8>, protobuf::SerializeError>)
        ensures
            match r {
                Ok(bytes) => bytes@ == self@.encode() && self@.encode().len() <= 0x7fff_ffff,
                Err(_) => self@.encode().len() > 0x7fff_ffff,
            },
            self@.well_formed(),
            self@.encode().len() <= size_limit() ==> merge_message::<PairingResponse>(
                PairingResponseModel::empty(),
                self@.encode(),
                group_depth_limit(),
            ) == Some(self@),
    {
        proof {
            lemma_pairing_response_well_formed(*self);
            if self@.encode().len() <= size_limit() {
                lemma_pairing_response_roundtrip(self@, group_depth_limit());
            }
        }
        let mut buf = Vec::new();
        self.write_to(&mut buf);
        assert(buf@ =~= self@.encode());
        if buf.len() > 0x7fff_ffff {
            return Err(serialize_error());
        }
        Ok(buf)
    }

    pub fn as_view(&self) -> (r: PairingResponseView<'_>)
        ensures
            r@ == self@,
    {
        PairingResponseView::new(self)
    }

    pub fn as_mut(&mut self) -> (r: PairingResponseMut<'_>)
        ensures
            r@ == old(self)@,
            *final(self) == *final(r.msg),
    {
        PairingResponseMut::new(self)
    }

    pub fn responder_id(&self) -> (r: &str)
        ensures
            r@ == self@.responder_id,
    {
        self.responder_id.as_str()
    }

    pub fn set_responder_id(&mut self, val: &str)
        ensures
            final(self)@ == (PairingResponseModel { responder_id: val@, ..old(self)@ }),
    {
        self.responder_id = val.to_owned();
    }

    pub fn initiator_id(&self) -> (r: &str)
        ensures
            r@ == self@.initiator_id,
    {
        self.initiator_id.as_str()
    }

    pub fn set_initiator_id(&mut self, val: &str)
        ensures
            final(self)@ == (PairingResponseModel { initiator_id: val@, ..old(self)@ }),
    {
        self.initiator_id = val.to_owned();
    }

    pub fn public_key(&self) -> (r: &[u8])
        ensures
            r@ == self@.public_key,
    {
        self.public_key.as_slice()
    }

    pub fn set_public_key(&mut self, val: &[u8])
        ensures
            final(self)@ == (PairingResponseModel { public_key: val@, ..old(self)@ }),
    {
        self.public_key = copy_bytes(val);
    }

    pub fn signed_nonce(&self) -> (r: &[u8])
        ensures
            r@ == self@.signed_nonce,
    {
        self.signed_nonce.as_slice()
    }

    pub fn set_signed_nonce(&mut self, val: &[u8])
        ensures
            final(self)@ == (PairingResponseModel { signed_nonce: val@, ..old(self)@ }),
    {
        self.signed_nonce = copy_bytes(val);
    }

    pub fn shared_secret(&self) -> (r: &[u8])
        ensures
            r@ == self@.shared_secret,
    {
        self.shared_secret.as_slice()
    }

    pub fn set_shared_secret(&mut self, val: &[u8])
        ensures
            final(self)@ == (PairingResponseModel { shared_secret: val@, ..old(self)@ }),
    {
        self.shared_secret = copy_bytes(val);
    }

    pub fn timestamp(&self) -> (r: u64)
        ensures
            r == self@.timestamp,
    {
        self.timestamp
    }

    pub fn set_timestamp(&mut self, val: u64)
        ensures
            final(self)@ == (PairingResponseModel { timestamp: val, ..old(self)@ }),
    {
        self.timestamp = val;
    }
}

impl Clone for PairingResponse {
    fn clone(&self) -> (r: Self)
        ensures
            r@ == self@,
    {
        let r = PairingResponse {
            responder_id: self.responder_id.clone(),
            initiator_id: self.initiator_id.clone(),
            public_key: copy_bytes(self.public_key.as_slice()),
            signed_nonce: copy_bytes(self.signed_nonce.as_slice()),
            shared_secret: copy_bytes(self.shared_secret.as_slice()),
            timestamp: self.timestamp,
            unknown: self.unknown.copy(),
        };
        r
    }
}

impl Default for PairingResponse {
    fn default() -> (r: Self)
        ensures
            r@ == PairingResponseModel::empty(),
    {
        Self::new()
    }
}

/// Read access to a `PairingResponse`; the default view reads as the empty message.
#[derive(Clone, Copy)]
pub struct PairingResponseView<'msg> {
    msg: Option<&'msg PairingResponse>,
}

impl<'msg> View for PairingResponseView<'msg> {
    type V = PairingResponseModel;

    closed spec fn view(&self) -> PairingResponseModel {
        match self.msg {
            Some(m) => m@,
            None => PairingResponseModel::empty(),
        }
    }
}

impl<'msg> PairingResponseView<'msg> {
    pub fn new(msg: &'msg PairingResponse) -> (r: Self)
        ensures
            r@ == msg@,
    {
        PairingResponseView { msg: Some(msg) }
    }

    /// An owned copy of the message.
    pub fn to_owned(&self) -> (r: PairingResponse)
        ensures
            r@ == self@,
    {
        match self.msg {
            Some(m) => m.clone(),
            None => PairingResponse::new(),
        }
    }

    /// The wire form, refused when it is longer than `i32::MAX` bytes. The
    /// message is well formed, so the wire form reads back as the message.
    pub fn serialize(&self) -> (r: Result<Vec<u8>, protobuf::SerializeError>)
        ensures
            match r {
                Ok(bytes) => bytes@ == self@.encode() && self@.encode().len() <= 0x7fff_ffff,
                Err(_) => self@.encode().len() > 0x7fff_ffff,
            },
            self@.well_formed(),
            self@.encode().len() <= size_limit() ==> merge_message::<PairingResponse>(
                PairingResponseModel::empty(),
                self@.encode(),
                group_depth_limit(),
            ) == Some(self@),
    {
        match self.msg {
            Some(m) => m.serialize(),
            None => PairingResponse::new().serialize(),
        }
    }

    pub fn responder_id(self) -> (r: &'msg str)
        ensures
            r@ == self@.responder_id,
    {
        match self.msg {
            Some(m) => m.responder_id.as_str(),
            None => {
                proof {
                    reveal_strlit("");
                }
                ""
            },
        }
    }

    pub fn initiator_id(self) -> (r: &'msg str)
        ensures
            r@ == self@.initiator_id,
    {
        match self.msg {
            Some(m) => m.initiator_id.as_str(),
            None => {
                proof {
                    reveal_strlit("");
                }
                ""
            },
        }
    }

    pub fn public_key(self) -> (r: &'msg [u8])
        ensures
            r@ == self@.public_key,
    {
        match self.msg {
            Some(m) => m.public_key.as_slice(),
            None => {
                &[]
            },
        }
    }

    pub fn signed_nonce(self) -> (r: &'msg [u8])
        ensures
            r@ == self@.signed_nonce,
    {
        match self.msg {
            Some(m) => m.signed_nonce.as_slice(),
            None => {
                &[]
            },
        }
    }

    pub fn shared_secret(self) -> (r: &'msg [u8])
        ensures
            r@ == self@.shared_secret,
    {
        match self.msg {
            Some(m) => m.shared_secret.as_slice(),
            None => {
                &[]
            },
        }
    }

    pub fn timestamp(self) -> (r: u64)
        ensures
            r == self@.timestamp,
    {
        match self.msg {
            Some(m) => m.timestamp,
            None => 0,
        }
    }
}

impl<'msg> Default for PairingResponseView<'msg> {
    fn default() -> (r: Self)
        ensures
            r@ == PairingResponseModel::empty(),
    {
        PairingResponseView { msg: None }
    }
}

/// Write access to a `PairingResponse` held elsewhere.
pub struct PairingResponseMut<'msg> {
    /// The message written through this handle.
    pub msg: &'msg mut PairingResponse,
}

impl<'msg> View for PairingResponseMut<'msg> {
    type V = PairingResponseModel;

    open spec fn view(&self) -> PairingResponseModel {
        (*self.msg)@
    }
}

impl<'msg> PairingResponseMut<'msg> {
    pub fn new(msg: &'msg mut PairingResponse) -> (r: Self)
        ensures
            r@ == old(msg)@,
            *final(msg) == *final(r.msg),
    {
        PairingResponseMut { msg }
    }

    /// An owned copy of the message.
    pub fn to_owned(&self) -> (r: PairingResponse)
        ensures
            r@ == self@,
    {
        self.msg.clone()
    }

    pub fn as_view(&self) -> (r: PairingResponseView<'_>)
        ensures
            r@ == self@,
    {
        PairingResponseView::new(self.msg)
    }

    /// The wire form, refused when it is longer than `i32::MAX` bytes. The
    /// message is well formed, so the wire form reads back as the message.
    pub fn serialize(&self) -> (r: Result<Vec<u8>, protobuf::SerializeError>)
        ensures
            match r {
                Ok(bytes) => bytes@ == self@.encode() && self@.encode().len() <= 0x7fff_ffff,
                Err(_) => self@.encode().len() > 0x7fff_ffff,
            },
            self@.well_formed(),
            self@.encode().len() <= size_limit() ==> merge_message::<PairingResponse>(
                PairingResponseModel::empty(),
                self@.encode(),
                group_depth_limit(),
            ) == Some(self@),
    {
        self.msg.serialize()
    }

    /// Resets every field to its default.
    pub fn clear(&mut self)
        ensures
            final(self)@ == PairingResponseModel::empty(),
            *final(final(self).msg) == *final(old(self).msg),
    {
        self.msg.clear();
    }

    /// Replaces the message by the one `data` encodes.
    pub fn clear_and_parse(&mut self, data: &[u8]) -> (r: Result<(), protobuf::ParseError>)
        ensures
            match merge_message::<PairingResponse>(PairingResponseModel::empty(), data@, group_depth_limit()) {
                Some(m) => r is Ok && final(self)@ == m && m.well_formed(),
                None => r is Err,
            },
            *final(final(self).msg) == *final(old(self).msg),
    {
        self.msg.clear_and_parse(data)
    }

    /// Replaces the message by the one `data` encodes.
    pub fn clear_and_parse_dont_enforce_required(&mut self, data: &[u8]) -> (r: Result<(), protobuf::ParseError>)
        ensures
            match merge_message::<PairingResponse>(PairingResponseModel::empty(), data@, group_depth_limit()) {
                Some(m) => r is Ok && final(self)@ == m && m.well_formed(),
                None => r is Err,
            },
            *final(final(self).msg) == *final(old(self).msg),
    {
        self.msg.clear_and_parse_dont_enforce_required(data)
    }

    /// Makes the message a copy of `src`.
    pub fn copy_from(&mut self, src: PairingResponseView<'_>)
        ensures
            final(self)@ == src@,
            *final(final(self).msg) == *final(old(self).msg),
    {
        self.msg.copy_from(src);
    }

    /// Merges `src` into the message.
    pub fn merge_from(&mut self, src: PairingResponseView<'_>)
        ensures
            final(self)@ == old(self)@.merge(src@),
            *final(final(self).msg) == *final(old(self).msg),
    {
        self.msg.merge_from(src);
    }

    pub fn responder_id(&self) -> (r: &str)
        ensures
            r@ == self@.responder_id,
    {
        self.msg.responder_id()
    }

    pub fn set_responder_id(&mut self, val: &str)
        ensures
            final(self)@ == (PairingResponseModel { responder_id: val@, ..old(self)@ }),
            *final(final(self).msg) == *final(old(self).msg),
    {
        self.msg.set_responder_id(val);
    }

    pub fn initiator_id(&self) -> (r: &str)
        ensures
            r@ == self@.initiator_id,
    {
        self.msg.initiator_id()
    }

    pub fn set_initiator_id(&mut self, val: &str)
        ensures
            final(self)@ == (PairingResponseModel { initiator_id: val@, ..old(self)@ }),
            *final(final(self).msg) == *final(old(self).msg),
    {
        self.msg.set_initiator_id(val);
    }

    pub fn public_key(&self) -> (r: &[u8])
        ensures
            r@ == self@.public_key,
    {
        self.msg.public_key()
    }

    pub fn set_public_key(&mut self, val: &[u8])
        ensures
            final(self)@ == (PairingResponseModel { public_key: val@, ..old(self)@ }),
            *final(final(self).msg) == *final(old(self).msg),
    {
        self.msg.set_public_key(val);
    }

    pub fn signed_nonce(&self) -> (r: &[u8])
        ensures
            r@ == self@.signed_nonce,
    {
        self.msg.signed_nonce()
    }

    pub fn set_signed_nonce(&mut self, val: &[u8])
        ensures
            final(self)@ == (PairingResponseModel { signed_nonce: val@, ..old(self)@ }),
            *final(final(self).msg) == *final(old(self).msg),
    {
        self.msg.set_signed_nonce(val);
    }

    pub fn shared_secret(&self) -> (r: &[u8])
        ensures
            r@ == self@.shared_secret,
    {
        self.msg.shared_secret()
    }

    pub fn set_shared_secret(&mut self, val: &[u8])
        ensures
            final(self)@ == (PairingResponseModel { shared_secret: val@, ..old(self)@ }),
            *final(final(self).msg) == *final(old(self).msg),
    {
        self.msg.set_shared_secret(val);
    }

    pub fn timestamp(&self) -> (r: u64)
        ensures
            r == self@.timestamp,
    {
        self.msg.timestamp()
    }

    pub fn set_timestamp(&mut self, val: u64)
        ensures
            final(self)@ == (PairingResponseModel { timestamp: val, ..old(self)@ }),
            *final(final(self).msg) == *final(old(self).msg),
    {
        self.msg.set_timestamp(val);
    }
}

/// The content of a `PairingConfirmation`.
pub struct PairingConfirmationModel {
    pub session_id: Seq<char>,
    pub confirmation_hash: Seq<u8>,
    pub timestamp: u64,
    /// The fields read but not understood, as they came, in order.
    pub unknown: Seq<u8>,
}

impl PairingConfirmationModel {
    /// The message with every field at its default.
    pub open spec fn empty() -> Self {
        PairingConfirmationModel {
            session_id: Seq::empty(),
            confirmation_hash: Seq::empty(),
            timestamp: 0,
            unknown: Seq::empty(),
        }
    }

    /// The wire form: fields in number order, defaults and absent
    /// sub-messages left out, then the unknown fields as they came.
    #[verifier::opaque]
    pub open spec fn encode(self) -> Seq<u8> {
        bytes_field(1, encode_utf8(self.session_id))
            + bytes_field(2, self.confirmation_hash)
            + varint_field(3, self.timestamp)
            + self.unknown
    }

    /// Whether a field is kept, as it came, among the unknown fields: its
    /// number is not one of this message's, or it comes with another wire
    /// type than its field is written with.
    pub open spec fn keeps_unknown(field: nat, value: WireValue) -> bool {
        if field == 1 {
            !(value is Delimited)
        } else if field == 2 {
            !(value is Delimited)
        } else if field == 3 {
            !(value is Varint)
        } else {
            true
        }
    }

    /// `keeps_unknown` as a function.
    pub open spec fn keeps() -> spec_fn(nat, WireValue) -> bool {
        |field: nat, value: WireValue| PairingConfirmationModel::keeps_unknown(field, value)
    }

    /// How one field of the wire form changes the message; `raw` is the
    /// field as it came. `None` when the field's content is malformed.
    #[verifier::opaque]
    pub open spec fn apply(self, field: nat, value: WireValue, raw: Seq<u8>, depth: nat) -> Option<Self> {
        if Self::keeps_unknown(field, value) {
            Some(PairingConfirmationModel { unknown: self.unknown + raw, ..self })
        } else if field == 1 {
            match value {
                WireValue::Delimited(b) => if valid_utf8(b) {
                    Some(PairingConfirmationModel { session_id: decode_utf8(b), ..self })
                } else {
                    None
                },
                _ => Some(self),
            }
        } else if field == 2 {
            match value {
                WireValue::Delimited(b) => Some(PairingConfirmationModel { confirmation_hash: b, ..self }),
                _ => Some(self),
            }
        } else if field == 3 {
            match value {
                WireValue::Varint(v) => Some(PairingConfirmationModel { timestamp: v, ..self }),
                _ => Some(self),
            }
        } else {
            Some(self)
        }
    }

    /// `other` merged into this message, as protobuf merges: a scalar, string
    /// or bytes field set in `other` replaces the one here, repeated fields
    /// are appended, sub-messages are merged, map entries inserted and
    /// unknown fields appended.
    #[verifier::opaque]
    pub open spec fn merge(self, other: Self) -> Self {
        PairingConfirmationModel {
            session_id: if other.session_id.len() > 0 { other.session_id } else { self.session_id },
            confirmation_hash: if other.confirmation_hash.len() > 0 { other.confirmation_hash } else { self.confirmation_hash },
            timestamp: if other.timestamp != 0 { other.timestamp } else { self.timestamp },
            unknown: self.unknown + other.unknown,
        }
    }

    /// What writing the message out and reading it back relies on: the
    /// unknown fields are whole fields this message does not read, and
    /// the same holds of every sub-message.
    pub open spec fn well_formed(self) -> bool {
        &&& unknown_fields::<PairingConfirmation>(self.unknown, group_depth_limit())
    }

    /// What reading the wire form back with `depth` levels of nesting left
    /// relies on: the message is well formed, its unknown fields read as
    /// whole fields with `depth` levels, and each sub-message reads back
    /// with one level less.
    pub open spec fn well_formed_at(self, depth: nat) -> bool {
        &&& self.well_formed()
        &&& unknown_fields::<PairingConfirmation>(self.unknown, depth)
    }
}

/// Reading the `session_id` field as `b` writes it merges it into `m`.
proof fn lemma_pairing_confirmation_read_session_id(m: PairingConfirmationModel, b: PairingConfirmationModel, rest: Seq<u8>, depth: nat)
    requires
        bytes_field(1, encode_utf8(b.session_id)).len() <= size_limit(),
    ensures
        merge_message::<PairingConfirmation>(m, bytes_field(1, encode_utf8(b.session_id)) + rest, depth) == merge_message::<PairingConfirmation>(
            PairingConfirmationModel { session_id: if b.session_id.len() > 0 { b.session_id } else { m.session_id }, ..m },
            rest,
            depth,
        ),
{
    let next = PairingConfirmationModel { session_id: if b.session_id.len() > 0 { b.session_id } else { m.session_id }, ..m };
    reveal(PairingConfirmationModel::apply);
    encode_utf8_decode_utf8(b.session_id);
    encode_utf8_valid_utf8(b.session_id);
    lemma_merge_bytes_field::<PairingConfirmation>(m, 1, encode_utf8(b.session_id), rest, next, depth);
}

/// Reading the `confirmation_hash` field as `b` writes it merges it into `m`.
proof fn lemma_pairing_confirmation_read_confirmation_hash(m: PairingConfirmationModel, b: PairingConfirmationModel, rest: Seq<u8>, depth: nat)
    requires
        bytes_field(2, b.confirmation_hash).len() <= size_limit(),
    ensures
        merge_message::<PairingConfirmation>(m, bytes_field(2, b.confirmation_hash) + rest, depth) == merge_message::<PairingConfirmation>(
            PairingConfirmationModel { confirmation_hash: if b.confirmation_hash.len() > 0 { b.confirmation_hash } else { m.confirmation_hash }, ..m },
            rest,
            depth,
        ),
{
    let next = PairingConfirmationModel { confirmation_hash: if b.confirmation_hash.len() > 0 { b.confirmation_hash } else { m.confirmation_hash }, ..m };
    reveal(PairingConfirmationModel::apply);
    lemma_merge_bytes_field::<PairingConfirmation>(m, 2, b.confirmation_hash, rest, next, depth);
}

/// Reading the `timestamp` field as `b` writes it merges it into `m`.
proof fn lemma_pairing_confirmation_read_timestamp(m: PairingConfirmationModel, b: PairingConfirmationModel, rest: Seq<u8>, depth: nat)
    requires
        varint_field(3, b.timestamp).len() <= size_limit(),
    ensures
        merge_message::<PairingConfirmation>(m, varint_field(3, b.timestamp) + rest, depth) == merge_message::<PairingConfirmation>(
            PairingConfirmationModel { timestamp: if b.timestamp != 0 { b.timestamp } else { m.timestamp }, ..m },
            rest,
            depth,
        ),
{
    let next = PairingConfirmationModel { timestamp: if b.timestamp != 0 { b.timestamp } else { m.timestamp }, ..m };
    reveal(PairingConfirmationModel::apply);
    lemma_merge_varint_field::<PairingConfirmation>(m, 3, b.timestamp, rest, next, depth);
}

/// Reading the unknown fields as `b` writes them adds them to those of `m`.
proof fn lemma_pairing_confirmation_read_unknown(m: PairingConfirmationModel, b: PairingConfirmationModel, rest: Seq<u8>, depth: nat)
    requires
        b.unknown.len() <= size_limit(),
        b.well_formed_at(depth),
    ensures
        merge_message::<PairingConfirmation>(m, b.unknown + rest, depth) == merge_message::<PairingConfirmation>(
            PairingConfirmationModel { unknown: m.unknown + b.unknown, ..m },
            rest,
            depth,
        ),
{
    lemma_merge_unknown::<PairingConfirmation>(m, b.unknown, rest, depth);
}

/// Reading the wire form of `b` into `a`, with `depth` levels of nesting left,
/// gives `b` merged into `a`.
pub proof fn lemma_pairing_confirmation_merge_wire(a: PairingConfirmationModel, b: PairingConfirmationModel, depth: nat)
    requires
        b.encode().len() <= size_limit(),
        b.well_formed_at(depth),
    ensures
        merge_message::<PairingConfirmation>(a, b.encode(), depth) == Some(a.merge(b)),
{
    let c1 = bytes_field(1, encode_utf8(b.session_id));
    let c2 = bytes_field(2, b.confirmation_hash);
    let c3 = varint_field(3, b.timestamp);
    let c4 = b.unknown;
    assert(b.encode() == c1 + c2 + c3 + c4) by {
        reveal(PairingConfirmationModel::encode);
    }
    let m0 = a;
    let m1 = PairingConfirmationModel { session_id: if b.session_id.len() > 0 { b.session_id } else { m0.session_id }, ..m0 };
    lemma_pairing_confirmation_read_session_id(m0, b, Seq::empty(), depth);
    assert(c1 + Seq::empty() =~= c1);
    lemma_merge_nothing::<PairingConfirmation>(m1, depth);
    let m2 = PairingConfirmationModel { confirmation_hash: if b.confirmation_hash.len() > 0 { b.confirmation_hash } else { m1.confirmation_hash }, ..m1 };
    lemma_pairing_confirmation_read_confirmation_hash(m1, b, Seq::empty(), depth);
    assert(c2 + Seq::empty() =~= c2);
    lemma_merge_nothing::<PairingConfirmation>(m2, depth);
    lemma_merge_concat::<PairingConfirmation>(a, c1, c2, depth);
    let m3 = PairingConfirmationModel { timestamp: if b.timestamp != 0 { b.timestamp } else { m2.timestamp }, ..m2 };
    lemma_pairing_confirmation_read_timestamp(m2, b, Seq::empty(), depth);
    assert(c3 + Seq::empty() =~= c3);
    lemma_merge_nothing::<PairingConfirmation>(m3, depth);
    lemma_merge_concat::<PairingConfirmation>(a, c1 + c2, c3, depth);
    let m4 = PairingConfirmationModel { unknown: m3.unknown + b.unknown, ..m3 };
    lemma_pairing_confirmation_read_unknown(m3, b, Seq::empty(), depth);
    assert(c4 + Seq::empty() =~= c4);
    lemma_merge_nothing::<PairingConfirmation>(m4, depth);
    lemma_merge_concat::<PairingConfirmation>(a, c1 + c2 + c3, c4, depth);
    assert(m4 == a.merge(b)) by {
        reveal(PairingConfirmationModel::merge);
    }
}

/// Merging the empty message changes nothing.
pub proof fn lemma_pairing_confirmation_merge_empty(a: PairingConfirmationModel)
    ensures
        a.merge(PairingConfirmationModel::empty()) == a,
{
    reveal(PairingConfirmationModel::merge);
    assert(a.unknown + Seq::empty() =~= a.unknown);
    assert(a.merge(PairingConfirmationModel::empty()) =~= a);
}

/// Merging a message into the empty one gives that message.
pub proof fn lemma_pairing_confirmation_empty_merge(b: PairingConfirmationModel)
    ensures
        PairingConfirmationModel::empty().merge(b) == b,
{
    reveal(PairingConfirmationModel::merge);
    assert(b.session_id.len() == 0 ==> b.session_id =~= Seq::<char>::empty());
    assert(b.confirmation_hash.len() == 0 ==> b.confirmation_hash =~= Seq::<u8>::empty());
    assert(Seq::empty() + b.unknown =~= b.unknown);
    assert(PairingConfirmationModel::empty().merge(b) =~= b);
}

/// Writing a message out and reading it back, with `depth` levels of
/// nesting left (`group_depth_limit()` for a message read on its own),
/// gives the same message.
pub proof fn lemma_pairing_confirmation_roundtrip(m: PairingConfirmationModel, depth: nat)
    requires
        m.encode().len() <= size_limit(),
        m.well_formed_at(depth),
    ensures
        merge_message::<PairingConfirmation>(PairingConfirmationModel::empty(), m.encode(), depth) == Some(m),
{
    lemma_pairing_confirmation_merge_wire(PairingConfirmationModel::empty(), m, depth);
    lemma_pairing_confirmation_empty_merge(m);
}

/// Reading two encoded messages written one after the other, with `depth`
/// levels of nesting left, gives the second merged into the first.
pub proof fn lemma_pairing_confirmation_concat(a: PairingConfirmationModel, b: PairingConfirmationModel, depth: nat)
    requires
        a.encode().len() <= size_limit(),
        b.encode().len() <= size_limit(),
        a.well_formed_at(depth),
        b.well_formed_at(depth),
    ensures
        merge_message::<PairingConfirmation>(PairingConfirmationModel::empty(), a.encode() + b.encode(), depth) == Some(a.merge(b)),
{
    lemma_pairing_confirmation_roundtrip(a, depth);
    lemma_merge_concat::<PairingConfirmation>(PairingConfirmationModel::empty(), a.encode(), b.encode(), depth);
    lemma_pairing_confirmation_merge_wire(a, b, depth);
}

/// Merging two well-formed messages gives a well-formed message.
pub proof fn lemma_pairing_confirmation_merge_well_formed(a: PairingConfirmationModel, b: PairingConfirmationModel)
    requires
        a.well_formed(),
        b.well_formed(),
    ensures
        a.merge(b).well_formed(),
{
    reveal(PairingConfirmationModel::merge);
    lemma_unknown_fields_concat::<PairingConfirmation>(a.unknown, b.unknown, group_depth_limit());
}

/// Reading one whole field into a well-formed message keeps it well formed.
proof fn lemma_pairing_confirmation_apply_well_formed(m: PairingConfirmationModel, field: nat, value: WireValue, raw: Seq<u8>, depth: nat)
    requires
        m.well_formed(),
        depth <= group_depth_limit(),
        decode_field(raw, depth) == Some((field, value, raw.len())),
        m.apply(field, value, raw, depth) is Some,
    ensures
        m.apply(field, value, raw, depth)->0.well_formed(),
{
    reveal(PairingConfirmationModel::apply);
    if PairingConfirmationModel::keeps_unknown(field, value) {
        lemma_decode_field_deeper(raw, depth, group_depth_limit());
        lemma_unknown_field::<PairingConfirmation>(raw, field, value, group_depth_limit());
        lemma_unknown_fields_concat::<PairingConfirmation>(m.unknown, raw, group_depth_limit());
    }
}

/// Reading whole fields into a well-formed message, with at most
/// `group_depth_limit()` levels of nesting left, keeps it well formed.
pub proof fn lemma_pairing_confirmation_parse_well_formed(m: PairingConfirmationModel, s: Seq<u8>, depth: nat)
    requires
        m.well_formed(),
        depth <= group_depth_limit(),
        merge_message::<PairingConfirmation>(m, s, depth) is Some,
    ensures
        merge_message::<PairingConfirmation>(m, s, depth)->0.well_formed(),
{
    assert forall|x: PairingConfirmationModel, field: nat, value: WireValue, raw: Seq<u8>|
        x.well_formed() && decode_field(raw, depth) == Some((field, value, raw.len())) && #[trigger] PairingConfirmation::apply_wire(
            x,
            field,
            value,
            raw,
            depth,
        ) is Some implies PairingConfirmation::apply_wire(x, field, value, raw, depth)->0.well_formed() by {
        lemma_pairing_confirmation_apply_well_formed(x, field, value, raw, depth);
    }
    lemma_merge_preserves::<PairingConfirmation>(m, s, |x: PairingConfirmationModel| x.well_formed(), depth);
}

/// The message that confirms a pairing session.
pub struct PairingConfirmation {
    session_id: String,
    confirmation_hash: Vec<u8>,
    timestamp: u64,
    unknown: PairingConfirmationUnknown,
}

impl View for PairingConfirmation {
    type V = PairingConfirmationModel;

    closed spec fn view(&self) -> PairingConfirmationModel {
        PairingConfirmationModel {
            session_id: self.session_id@,
            confirmation_hash: self.confirmation_hash@,
            timestamp: self.timestamp,
            unknown: self.unknown@,
        }
    }
}

/// The unknown fields of a `PairingConfirmation`: whole fields it does not read, as they
/// came, in order.
struct PairingConfirmationUnknown {
    bytes: Vec<u8>,
}

impl View for PairingConfirmationUnknown {
    type V = Seq<u8>;

    closed spec fn view(&self) -> Seq<u8> {
        if unknown_run(self.bytes@, PairingConfirmationModel::keeps(), group_depth_limit()) {
            self.bytes@
        } else {
            Seq::empty()
        }
    }
}

impl PairingConfirmationUnknown {
    #[verifier::type_invariant]
    closed spec fn whole(self) -> bool {
        unknown_run(self.bytes@, PairingConfirmationModel::keeps(), group_depth_limit())
    }

    fn new() -> (r: Self)
        ensures
            r@ == Seq::<u8>::empty(),
    {
        proof {
            lemma_unknown_run_empty(PairingConfirmationModel::keeps(), group_depth_limit());
        }
        PairingConfirmationUnknown { bytes: Vec::new() }
    }

    /// Adds one whole field that the message does not read.
    fn push_field(&mut self, raw: &[u8], Ghost(field): Ghost<nat>, Ghost(value): Ghost<WireValue>)
        requires
            decode_field(raw@, group_depth_limit()) == Some((field, value, raw@.len())),
            PairingConfirmationModel::keeps_unknown(field, value),
        ensures
            final(self)@ == old(self)@ + raw@,
    {
        proof {
            use_type_invariant(&*self);
            lemma_unknown_run_field(raw@, field, value, PairingConfirmationModel::keeps(), group_depth_limit());
            lemma_unknown_run_concat(self.bytes@, raw@, PairingConfirmationModel::keeps(), group_depth_limit());
            lemma_unknown_run_empty(PairingConfirmationModel::keeps(), group_depth_limit());
        }
        let mut bytes = Vec::new();
        std::mem::swap(&mut bytes, &mut self.bytes);
        append_bytes(&mut bytes, raw);
        self.bytes = bytes;
    }

    /// Adds the unknown fields of another message of the same kind.
    fn append(&mut self, other: &Self)
        ensures
            final(self)@ == old(self)@ + other@,
    {
        proof {
            use_type_invariant(&*self);
            use_type_invariant(other);
            lemma_unknown_run_concat(self.bytes@, other.bytes@, PairingConfirmationModel::keeps(), group_depth_limit());
            lemma_unknown_run_empty(PairingConfirmationModel::keeps(), group_depth_limit());
        }
        let mut bytes = Vec::new();
        std::mem::swap(&mut bytes, &mut self.bytes);
        append_bytes(&mut bytes, other.bytes.as_slice());
        self.bytes = bytes;
    }

    fn as_slice(&self) -> (r: &[u8])
        ensures
            r@ == self@,
    {
        proof {
            use_type_invariant(self);
        }
        self.bytes.as_slice()
    }

    fn copy(&self) -> (r: Self)
        ensures
            r@ == self@,
    {
        proof {
            use_type_invariant(self);
        }
        PairingConfirmationUnknown { bytes: copy_bytes(self.bytes.as_slice()) }
    }
}

impl WireMessage for PairingConfirmation {
    open spec fn apply_wire(message: PairingConfirmationModel, field: nat, value: WireValue, raw: Seq<u8>, depth: nat) -> Option<PairingConfirmationModel> {
        message.apply(field, value, raw, depth)
    }

    open spec fn keeps_unknown(field: nat, value: WireValue) -> bool {
        PairingConfirmationModel::keeps_unknown(field, value)
    }

    open spec fn add_unknown(message: PairingConfirmationModel, raw: Seq<u8>) -> PairingConfirmationModel {
        PairingConfirmationModel { unknown: message.unknown + raw, ..message }
    }

    proof fn lemma_apply_unknown(message: PairingConfirmationModel, field: nat, value: WireValue, raw: Seq<u8>, depth: nat) {
        reveal(PairingConfirmationModel::apply);
    }

    proof fn lemma_add_unknown(message: PairingConfirmationModel, a: Seq<u8>, b: Seq<u8>) {
        assert(message.unknown + a + b =~= message.unknown + (a + b));
        assert(message.unknown + Seq::<u8>::empty() =~= message.unknown);
    }

    fn apply_field(
        &mut self,
        data: &[u8],
        field: u32,
        value: FieldValue,
        start: usize,
        end: usize,
        depth: u32,
    ) -> (ok: bool) {
        proof {
            reveal(PairingConfirmationModel::apply);
        }
        if field == 1 {
            if let FieldValue::Delimited(from, to) = value {
                match proto_string(&data[from..to]) {
                    Some(text) => self.session_id = text,
                    None => return false,
                }
                return true;
            }
        } else if field == 2 {
            if let FieldValue::Delimited(from, to) = value {
                self.confirmation_hash = copy_bytes(&data[from..to]);
                return true;
            }
        } else if field == 3 {
            if let FieldValue::Varint(v) = value {
                self.timestamp = v;
                return true;
            }
        }
        proof {
            lemma_decode_field_deeper(data@.subrange(start as int, end as int), depth as nat, group_depth_limit());
        }
        self.unknown.push_field(&data[start..end], Ghost(field as nat), Ghost(value.wire(data@)));
        true
    }
}

/// The content of every `PairingConfirmation` is well formed.
pub proof fn lemma_pairing_confirmation_well_formed(m: PairingConfirmation)
    ensures
        m@.well_formed(),
{
    lemma_unknown_run_fields::<PairingConfirmation>(m.unknown.bytes@, PairingConfirmationModel::keeps(), group_depth_limit());
}

impl PairingConfirmation {
    /// A message with every field at its default.
    pub fn new() -> (r: Self)
        ensures
            r@ == PairingConfirmationModel::empty(),
    {
        let r = PairingConfirmation {
            session_id: String::new(),
            confirmation_hash: Vec::new(),
            timestamp: 0,
            unknown: PairingConfirmationUnknown::new(),
        };
        r
    }

    /// Reads a message from its wire form.
    pub fn parse(data: &[u8]) -> (r: Result<Self, protobuf::ParseError>)
        ensures
            match merge_message::<PairingConfirmation>(PairingConfirmationModel::empty(), data@, group_depth_limit()) {
                Some(m) => r matches Ok(msg) && msg@ == m && m.well_formed(),
                None => r is Err,
            },
    {
        proof {
            if merge_message::<PairingConfirmation>(PairingConfirmationModel::empty(), data@, group_depth_limit()) is Some {
                lemma_pairing_confirmation_parse_well_formed(PairingConfirmationModel::empty(), data@, group_depth_limit());
            }
        }
        let mut msg = Self::new();
        if merge_bytes(&mut msg, data, 100) {
            Ok(msg)
        } else {
            Err(parse_error())
        }
    }

    /// Same as `parse`: the message has no required fields.
    pub fn parse_dont_enforce_required(data: &[u8]) -> (r: Result<Self, protobuf::ParseError>)
        ensures
            match merge_message::<PairingConfirmation>(PairingConfirmationModel::empty(), data@, group_depth_limit()) {
                Some(m) => r matches Ok(msg) && msg@ == m && m.well_formed(),
                None => r is Err,
            },
    {
        Self::parse(data)
    }

    /// Resets every field to its default.
    pub fn clear(&mut self)
        ensures
            final(self)@ == PairingConfirmationModel::empty(),
    {
        *self = PairingConfirmation::new();
    }

    /// Replaces the message by the one `data` encodes; on an error what the
    /// message then holds is unspecified.
    pub fn clear_and_parse(&mut self, data: &[u8]) -> (r: Result<(), protobuf::ParseError>)
        ensures
            match merge_message::<PairingConfirmation>(PairingConfirmationModel::empty(), data@, group_depth_limit()) {
                Some(m) => r is Ok && final(self)@ == m && m.well_formed(),
                None => r is Err,
            },
    {
        proof {
            if merge_message::<PairingConfirmation>(PairingConfirmationModel::empty(), data@, group_depth_limit()) is Some {
                lemma_pairing_confirmation_parse_well_formed(PairingConfirmationModel::empty(), data@, group_depth_limit());
            }
        }
        *self = PairingConfirmation::new();
        if merge_bytes(self, data, 100) {
            Ok(())
        } else {
            Err(parse_error())
        }
    }

    /// Same as `clear_and_parse`: the message has no required fields; on an error what the
    /// message then holds is unspecified.
    pub fn clear_and_parse_dont_enforce_required(&mut self, data: &[u8]) -> (r: Result<(), protobuf::ParseError>)
        ensures
            match merge_message::<PairingConfirmation>(PairingConfirmationModel::empty(), data@, group_depth_limit()) {
                Some(m) => r is Ok && final(self)@ == m && m.well_formed(),
                None => r is Err,
            },
    {
        self.clear_and_parse(data)
    }

    /// Makes this message a copy of `src`.
    pub fn copy_from(&mut self, src: PairingConfirmationView<'_>)
        ensures
            final(self)@ == src@,
    {
        *self = src.to_owned();
    }

    /// Moves the content of `src` here, leaving `src` empty.
    pub fn take_from(&mut self, src: &mut PairingConfirmation)
        ensures
            final(self)@ == old(src)@,
            final(src)@ == PairingConfirmationModel::empty(),
    {
        let mut taken = PairingConfirmation::new();
        std::mem::swap(&mut taken, src);
        *self = taken;
    }

    /// Merges `src` into this message (see `merge` on the model).
    pub fn merge_from(&mut self, src: PairingConfirmationView<'_>)
        ensures
            final(self)@ == old(self)@.merge(src@),
    {
        match src.msg {
            Some(other) => self.merge_fields_from(other),
            None => {
                proof {
                    lemma_pairing_confirmation_merge_empty(self@);
                }
            },
        }
    }

    fn merge_fields_from(&mut self, other: &PairingConfirmation)
        ensures
            final(self)@ == old(self)@.merge(other@),
    {
        proof {
            reveal(PairingConfirmationModel::merge);
        }
        let ghost start = self@;
        if !other.session_id.as_str().is_empty() {
            self.session_id = other.session_id.clone();
        }
        if other.confirmation_hash.len() > 0 {
            self.confirmation_hash = copy_bytes(other.confirmation_hash.as_slice());
        }
        if other.timestamp != 0 {
            self.timestamp = other.timestamp;
        }
        self.unknown.append(&other.unknown);
        assert(self@ =~= start.merge(other@));
    }

    /// Appends the wire form to `buf`.
    pub fn write_to(&self, buf: &mut Vec<u8>)
        ensures
            final(buf)@ == old(buf)@ + self@.encode(),
    {
        let ghost start = buf@;
        let ghost c1 = bytes_field(1, encode_utf8(self@.session_id));
        let ghost c2 = bytes_field(2, self@.confirmation_hash);
        let ghost c3 = varint_field(3, self@.timestamp);
        let ghost c4 = self@.unknown;
        write_bytes_field(buf, 1, self.session_id.as_str().as_bytes());
        let ghost mut written = c1;
        assert(buf@ == start + written);
        write_bytes_field(buf, 2, self.confirmation_hash.as_slice());
        proof {
            lemma_concat_associative(start, written, c2);
            written = written + c2;
        }
        assert(buf@ == start + written);
        write_varint_field(buf, 3, self.timestamp);
        proof {
            lemma_concat_associative(start, written, c3);
            written = written + c3;
        }
        assert(buf@ == start + written);
        append_bytes(buf, self.unknown.as_slice());
        proof {
            lemma_concat_associative(start, written, c4);
            written = written + c4;
        }
        assert(buf@ == start + written);
        assert(self@.encode() == written) by {
            assert(written == c1 + c2 + c3 + c4);
            reveal(PairingConfirmationModel::encode);
        }
    }

    /// The wire form, refused when it is longer than `i32::MAX` bytes. The
    /// message is well formed, so the wire form reads back as the message.
    pub fn serialize(&self) -> (r: Result<Vec<u8>, protobuf::SerializeError>)
        ensures
            match r {
                Ok(bytes) => bytes@ == self@.encode() && self@.encode().len() <= 0x7fff_ffff,
                Err(_) => self@.encode().len() > 0x7fff_ffff,
            },
            self@.well_formed(),
            self@.encode().len() <= size_limit() ==> merge_message::<PairingConfirmation>(
                PairingConfirmationModel::empty(),
                self@.encode(),
                group_depth_limit(),
            ) == Some(self@),
    {
        proof {
            lemma_pairing_confirmation_well_formed(*self);
            if self@.encode().len() <= size_limit() {
                lemma_pairing_confirmation_roundtrip(self@, group_depth_limit());
            }
        }
        let mut buf = Vec::new();
        self.write_to(&mut buf);
        assert(buf@ =~= self@.encode());
        if buf.len() > 0x7fff_ffff {
            return Err(serialize_error());
        }
        Ok(buf)
    }

    pub fn as_view(&self) -> (r: PairingConfirmationView<'_>)
        ensures
            r@ == self@,
    {
        PairingConfirmationView::new(self)
    }

    pub fn as_mut(&mut self) -> (r: PairingConfirmationMut<'_>)
        ensures
            r@ == old(self)@,
            *final(self) == *final(r.msg),
    {
        PairingConfirmationMut::new(self)
    }

    pub fn session_id(&self) -> (r: &str)
        ensures
            r@ == self@.session_id,
    {
        self.session_id.as_str()
    }

    pub fn set_session_id(&mut self, val: &str)
        ensures
            final(self)@ == (PairingConfirmationModel { session_id: val@, ..old(self)@ }),
    {
        self.session_id = val.to_owned();
    }

    pub fn confirmation_hash(&self) -> (r: &[u8])
        ensures
            r@ == self@.confirmation_hash,
    {
        self.confirmation_hash.as_slice()
    }

    pub fn set_confirmation_hash(&mut self, val: &[u8])
        ensures
            final(self)@ == (PairingConfirmationModel { confirmation_hash: val@, ..old(self)@ }),
    {
        self.confirmation_hash = copy_bytes(val);
    }

    pub fn timestamp(&self) -> (r: u64)
        ensures
            r == self@.timestamp,
    {
        self.timestamp
    }

    pub fn set_timestamp(&mut self, val: u64)
        ensures
            final(self)@ == (PairingConfirmationModel { timestamp: val, ..old(self)@ }),
    {
        self.timestamp = val;
    }
}

impl Clone for PairingConfirmation {
    fn clone(&self) -> (r: Self)
        ensures
            r@ == self@,
    {
        let r = PairingConfirmation {
            session_id: self.session_id.clone(),
            confirmation_hash: copy_bytes(self.confirmation_hash.as_slice()),
            timestamp: self.timestamp,
            unknown: self.unknown.copy(),
        };
        r
    }
}

impl Default for PairingConfirmation {
    fn default() -> (r: Self)
        ensures
            r@ == PairingConfirmationModel::empty(),
    {
        Self::new()
    }
}

/// Read access to a `PairingConfirmation`; the default view reads as the empty message.
#[derive(Clone, Copy)]
pub struct PairingConfirmationView<'msg> {
    msg: Option<&'msg PairingConfirmation>,
}

impl<'msg> View for PairingConfirmationView<'msg> {
    type V = PairingConfirmationModel;

    closed spec fn view(&self) -> PairingConfirmationModel {
        match self.msg {
            Some(m) => m@,
            None => PairingConfirmationModel::empty(),
        }
    }
}

impl<'msg> PairingConfirmationView<'msg> {
    pub fn new(msg: &'msg PairingConfirmation) -> (r: Self)
        ensures
            r@ == msg@,
    {
        PairingConfirmationView { msg: Some(msg) }
    }

    /// An owned copy of the message.
    pub fn to_owned(&self) -> (r: PairingConfirmation)
        ensures
            r@ == self@,
    {
        match self.msg {
            Some(m) => m.clone(),
            None => PairingConfirmation::new(),
        }
    }

    /// The wire form, refused when it is longer than `i32::MAX` bytes. The
    /// message is well formed, so the wire form reads back as the message.
    pub fn serialize(&self) -> (r: Result<Vec<u8>, protobuf::SerializeError>)
        ensures
            match r {
                Ok(bytes) => bytes@ == self@.encode() && self@.encode().len() <= 0x7fff_ffff,
                Err(_) => self@.encode().len() > 0x7fff_ffff,
            },
            self@.well_formed(),
            self@.encode().len() <= size_limit() ==> merge_message::<PairingConfirmation>(
                PairingConfirmationModel::empty(),
                self@.encode(),
                group_depth_limit(),
            ) == Some(self@),
    {
        match self.msg {
            Some(m) => m.serialize(),
            None => PairingConfirmation::new().serialize(),
        }
    }

    pub fn session_id(self) -> (r: &'msg str)
        ensures
            r@ == self@.session_id,
    {
        match self.msg {
            Some(m) => m.session_id.as_str(),
            None => {
                proof {
                    reveal_strlit("");
                }
                ""
            },
        }
    }

    pub fn confirmation_hash(self) -> (r: &'msg [u8])
        ensures
            r@ == self@.confirmation_hash,
    {
        match self.msg {
            Some(m) => m.confirmation_hash.as_slice(),
            None => {
                &[]
            },
        }
    }

    pub fn timestamp(self) -> (r: u64)
        ensures
            r == self@.timestamp,
    {
        match self.msg {
            Some(m) => m.timestamp,
            None => 0,
        }
    }
}

impl<'msg> Default for PairingConfirmationView<'msg> {
    fn default() -> (r: Self)
        ensures
            r@ == PairingConfirmationModel::empty(),
    {
        PairingConfirmationView { msg: None }
    }
}

/// Write access to a `PairingConfirmation` held elsewhere.
pub struct PairingConfirmationMut<'msg> {
    /// The message written through this handle.
    pub msg: &'msg mut PairingConfirmation,
}

impl<'msg> View for PairingConfirmationMut<'msg> {
    type V = PairingConfirmationModel;

    open spec fn view(&self) -> PairingConfirmationModel {
        (*self.msg)@
    }
}

impl<'msg> PairingConfirmationMut<'msg> {
    pub fn new(msg: &'msg mut PairingConfirmation) -> (r: Self)
        ensures
            r@ == old(msg)@,
            *final(msg) == *final(r.msg),
    {
        PairingConfirmationMut { msg }
    }

    /// An owned copy of the message.
    pub fn to_owned(&self) -> (r: PairingConfirmation)
        ensures
            r@ == self@,
    {
        self.msg.clone()
    }

    pub fn as_view(&self) -> (r: PairingConfirmationView<'_>)
        ensures
            r@ == self@,
    {
        PairingConfirmationView::new(self.msg)
    }

    /// The wire form, refused when it is longer than `i32::MAX` bytes. The
    /// message is well formed, so the wire form reads back as the message.
    pub fn serialize(&self) -> (r: Result<Vec<u8>, protobuf::SerializeError>)
        ensures
            match r {
                Ok(bytes) => bytes@ == self@.encode() && self@.encode().len() <= 0x7fff_ffff,
                Err(_) => self@.encode().len() > 0x7fff_ffff,
            },
            self@.well_formed(),
            self@.encode().len() <= size_limit() ==> merge_message::<PairingConfirmation>(
                PairingConfirmationModel::empty(),
                self@.encode(),
                group_depth_limit(),
            ) == Some(self@),
    {
        self.msg.serialize()
    }

    /// Resets every field to its default.
    pub fn clear(&mut self)
        ensures
            final(self)@ == PairingConfirmationModel::empty(),
            *final(final(self).msg) == *final(old(self).msg),
    {
        self.msg.clear();
    }

    /// Replaces the message by the one `data` encodes.
    pub fn clear_and_parse(&mut self, data: &[u8]) -> (r: Result<(), protobuf::ParseError>)
        ensures
            match merge_message::<PairingConfirmation>(PairingConfirmationModel::empty(), data@, group_depth_limit()) {
                Some(m) => r is Ok && final(self)@ == m && m.well_formed(),
                None => r is Err,
            },
            *final(final(self).msg) == *final(old(self).msg),
    {
        self.msg.clear_and_parse(data)
    }

    /// Replaces the message by the one `data` encodes.
    pub fn clear_and_parse_dont_enforce_required(&mut self, data: &[u8]) -> (r: Result<(), protobuf::ParseError>)
        ensures
            match merge_message::<PairingConfirmation>(PairingConfirmationModel::empty(), data@, group_depth_limit()) {
                Some(m) => r is Ok && final(self)@ == m && m.well_formed(),
                None => r is Err,
            },
            *final(final(self).msg) == *final(old(self).msg),
    {
        self.msg.clear_and_parse_dont_enforce_required(data)
    }

    /// Makes the message a copy of `src`.
    pub fn copy_from(&mut self, src: PairingConfirmationView<'_>)
        ensures
            final(self)@ == src@,
            *final(final(self).msg) == *final(old(self).msg),
    {
        self.msg.copy_from(src);
    }

    /// Merges `src` into the message.
    pub fn merge_from(&mut self, src: PairingConfirmationView<'_>)
        ensures
            final(self)@ == old(self)@.merge(src@),
            *final(final(self).msg) == *final(old(self).msg),
    {
        self.msg.merge_from(src);
    }

    pub fn session_id(&self) -> (r: &str)
        ensures
            r@ == self@.session_id,
    {
        self.msg.session_id()
    }

    pub fn set_session_id(&mut self, val: &str)
        ensures
            final(self)@ == (PairingConfirmationModel { session_id: val@, ..old(self)@ }),
            *final(final(self).msg) == *final(old(self).msg),
    {
        self.msg.set_session_id(val);
    }

    pub fn confirmation_hash(&self) -> (r: &[u8])
        ensures
            r@ == self@.confirmation_hash,
    {
        self.msg.confirmation_hash()
    }

    pub fn set_confirmation_hash(&mut self, val: &[u8])
        ensures
            final(self)@ == (PairingConfirmationModel { confirmation_hash: val@, ..old(self)@ }),
            *final(final(self).msg) == *final(old(self).msg),
    {
        self.msg.set_confirmation_hash(val);
    }

    pub fn timestamp(&self) -> (r: u64)
        ensures
            r == self@.timestamp,
    {
        self.msg.timestamp()
    }

    pub fn set_timestamp(&mut self, val: u64)
        ensures
            final(self)@ == (PairingConfirmationModel { timestamp: val, ..old(self)@ }),
            *final(final(self).msg) == *final(old(self).msg),
    {
        self.msg.set_timestamp(val);
    }
}

/// The content of a `PairingStatusUpdate`.
pub struct PairingStatusUpdateModel {
    pub session_id: Seq<char>,
    pub status: PairingStatus,
    pub error_message: Seq<char>,
    pub timestamp: u64,
    /// The fields read but not understood, as they came, in order.
    pub unknown: Seq<u8>,
}

impl PairingStatusUpdateModel {
    /// The message with every field at its default.
    pub open spec fn empty() -> Self {
        PairingStatusUpdateModel {
            session_id: Seq::empty(),
            status: PairingStatus(0),
            error_message: Seq::empty(),
            timestamp: 0,
            unknown: Seq::empty(),
        }
    }

    /// The wire form: fields in number order, defaults and absent
    /// sub-messages left out, then the unknown fields as they came.
    #[verifier::opaque]
    pub open spec fn encode(self) -> Seq<u8> {
        bytes_field(1, encode_utf8(self.session_id))
            + varint_field(2, i32_wire(self.status.0))
            + bytes_field(3, encode_utf8(self.error_message))
            + varint_field(4, self.timestamp)
            + self.unknown
    }

    /// Whether a field is kept, as it came, among the unknown fields: its
    /// number is not one of this message's, or it comes with another wire
    /// type than its field is written with.
    pub open spec fn keeps_unknown(field: nat, value: WireValue) -> bool {
        if field == 1 {
            !(value is Delimited)
        } else if field == 2 {
            !(value is Varint)
        } else if field == 3 {
            !(value is Delimited)
        } else if field == 4 {
            !(value is Varint)
        } else {
            true
        }
    }

    /// `keeps_unknown` as a function.
    pub open spec fn keeps() -> spec_fn(nat, WireValue) -> bool {
        |field: nat, value: WireValue| PairingStatusUpdateModel::keeps_unknown(field, value)
    }

    /// How one field of the wire form changes the message; `raw` is the
    /// field as it came. `None` when the field's content is malformed.
    #[verifier::opaque]
    pub open spec fn apply(self, field: nat, value: WireValue, raw: Seq<u8>, depth: nat) -> Option<Self> {
        if Self::keeps_unknown(field, value) {
            Some(PairingStatusUpdateModel { unknown: self.unknown + raw, ..self })
        } else if field == 1 {
            match value {
                WireValue::Delimited(b) => if valid_utf8(b) {
                    Some(PairingStatusUpdateModel { session_id: decode_utf8(b), ..self })
                } else {
                    None
                },
                _ => Some(self),
            }
        } else if field == 2 {
            match value {
                WireValue::Varint(v) => Some(PairingStatusUpdateModel { status: PairingStatus(wire_i32(v)), ..self }),
                _ => Some(self),
            }
        } else if field == 3 {
            match value {
                WireValue::Delimited(b) => if valid_utf8(b) {
                    Some(PairingStatusUpdateModel { error_message: decode_utf8(b), ..self })
                } else {
                    None
                },
                _ => Some(self),
            }
        } else if field == 4 {
            match value {
                WireValue::Varint(v) => Some(PairingStatusUpdateModel { timestamp: v, ..self }),
                _ => Some(self),
            }
        } else {
            Some(self)
        }
    }

    /// `other` merged into this message, as protobuf merges: a scalar, string
    /// or bytes field set in `other` replaces the one here, repeated fields
    /// are appended, sub-messages are merged, map entries inserted and
    /// unknown fields appended.
    #[verifier::opaque]
    pub open spec fn merge(self, other: Self) -> Self {
        PairingStatusUpdateModel {
            session_id: if other.session_id.len() > 0 { other.session_id } else { self.session_id },
            status: if other.status.0 != 0 { other.status } else { self.status },
            error_message: if other.error_message.len() > 0 { other.error_message } else { self.error_message },
            timestamp: if other.timestamp != 0 { other.timestamp } else { self.timestamp },
            unknown: self.unknown + other.unknown,
        }
    }

    /// What writing the message out and reading it back relies on: the
    /// unknown fields are whole fields this message does not read, and
    /// the same holds of every sub-message.
    pub open spec fn well_formed(self) -> bool {
        &&& unknown_fields::<PairingStatusUpdate>(self.unknown, group_depth_limit())
    }

    /// What reading the wire form back with `depth` levels of nesting left
    /// relies on: the message is well formed, its unknown fields read as
    /// whole fields with `depth` levels, and each sub-message reads back
    /// with one level less.
    pub open spec fn well_formed_at(self, depth: nat) -> bool {
        &&& self.well_formed()
        &&& unknown_fields::<PairingStatusUpdate>(self.unknown, depth)
    }
}

/// Reading the `session_id` field as `b` writes it merges it into `m`.
proof fn lemma_pairing_status_update_read_session_id(m: PairingStatusUpdateModel, b: PairingStatusUpdateModel, rest: Seq<u8>, depth: nat)
    requires
        bytes_field(1, encode_utf8(b.session_id)).len() <= size_limit(),
    ensures
        merge_message::<PairingStatusUpdate>(m, bytes_field(1, encode_utf8(b.session_id)) + rest, depth) == merge_message::<PairingStatusUpdate>(
            PairingStatusUpdateModel { session_id: if b.session_id.len() > 0 { b.session_id } else { m.session_id }, ..m },
            rest,
            depth,
        ),
{
    let next = PairingStatusUpdateModel { session_id: if b.session_id.len() > 0 { b.session_id } else { m.session_id }, ..m };
    reveal(PairingStatusUpdateModel::apply);
    encode_utf8_decode_utf8(b.session_id);
    encode_utf8_valid_utf8(b.session_id);
    lemma_merge_bytes_field::<PairingStatusUpdate>(m, 1, encode_utf8(b.session_id), rest, next, depth);
}

/// Reading the `status` field as `b` writes it merges it into `m`.
proof fn lemma_pairing_status_update_read_status(m: PairingStatusUpdateModel, b: PairingStatusUpdateModel, rest: Seq<u8>, depth: nat)
    requires
        varint_field(2, i32_wire(b.status.0)).len() <= size_limit(),
    ensures
        merge_message::<PairingStatusUpdate>(m, varint_field(2, i32_wire(b.status.0)) + rest, depth) == merge_message::<PairingStatusUpdate>(
            PairingStatusUpdateModel { status: if b.status.0 != 0 { b.status } else { m.status }, ..m },
            rest,
            depth,
        ),
{
    let next = PairingStatusUpdateModel { status: if b.status.0 != 0 { b.status } else { m.status }, ..m };
    reveal(PairingStatusUpdateModel::apply);
    lemma_i32_wire_roundtrip(b.status.0);
    lemma_merge_varint_field::<PairingStatusUpdate>(m, 2, i32_wire(b.status.0), rest, next, depth);
}

/// Reading the `error_message` field as `b` writes it merges it into `m`.
proof fn lemma_pairing_status_update_read_error_message(m: PairingStatusUpdateModel, b: PairingStatusUpdateModel, rest: Seq<u8>, depth: nat)
    requires
        bytes_field(3, encode_utf8(b.error_message)).len() <= size_limit(),
    ensures
        merge_message::<PairingStatusUpdate>(m, bytes_field(3, encode_utf8(b.error_message)) + rest, depth) == merge_message::<PairingStatusUpdate>(
            PairingStatusUpdateModel { error_message: if b.error_message.len() > 0 { b.error_message } else { m.error_message }, ..m },
            rest,
            depth,
        ),
{
    let next = PairingStatusUpdateModel { error_message: if b.error_message.len() > 0 { b.error_message } else { m.error_message }, ..m };
    reveal(PairingStatusUpdateModel::apply);
    encode_utf8_decode_utf8(b.error_message);
    encode_utf8_valid_utf8(b.error_message);
    lemma_merge_bytes_field::<PairingStatusUpdate>(m, 3, encode_utf8(b.error_message), rest, next, depth);
}

/// Reading the `timestamp` field as `b` writes it merges it into `m`.
proof fn lemma_pairing_status_update_read_timestamp(m: PairingStatusUpdateModel, b: PairingStatusUpdateModel, rest: Seq<u8>, depth: nat)
    requires
        varint_field(4, b.timestamp).len() <= size_limit(),
    ensures
        merge_message::<PairingStatusUpdate>(m, varint_field(4, b.timestamp) + rest, depth) == merge_message::<PairingStatusUpdate>(
            PairingStatusUpdateModel { timestamp: if b.timestamp != 0 { b.timestamp } else { m.timestamp }, ..m },
            rest,
            depth,
        ),
{
    let next = PairingStatusUpdateModel { timestamp: if b.timestamp != 0 { b.timestamp } else { m.timestamp }, ..m };
    reveal(PairingStatusUpdateModel::apply);
    lemma_merge_varint_field::<PairingStatusUpdate>(m, 4, b.timestamp, rest, next, depth);
}

/// Reading the unknown fields as `b` writes them adds them to those of `m`.
proof fn lemma_pairing_status_update_read_unknown(m: PairingStatusUpdateModel, b: PairingStatusUpdateModel, rest: Seq<u8>, depth: nat)
    requires
        b.unknown.len() <= size_limit(),
        b.well_formed_at(depth),
    ensures
        merge_message::<PairingStatusUpdate>(m, b.unknown + rest, depth) == merge_message::<PairingStatusUpdate>(
            PairingStatusUpdateModel { unknown: m.unknown + b.unknown, ..m },
            rest,
            depth,
        ),
{
    lemma_merge_unknown::<PairingStatusUpdate>(m, b.unknown, rest, depth);
}

/// Reading the wire form of `b` into `a`, with `depth` levels of nesting left,
/// gives `b` merged into `a`.
pub proof fn lemma_pairing_status_update_merge_wire(a: PairingStatusUpdateModel, b: PairingStatusUpdateModel, depth: nat)
    requires
        b.encode().len() <= size_limit(),
        b.well_formed_at(depth),
    ensures
        merge_message::<PairingStatusUpdate>(a, b.encode(), depth) == Some(a.merge(b)),
{
    let c1 = bytes_field(1, encode_utf8(b.session_id));
    let c2 = varint_field(2, i32_wire(b.status.0));
    let c3 = bytes_field(3, encode_utf8(b.error_message));
    let c4 = varint_field(4, b.timestamp);
    let c5 = b.unknown;
    assert(b.encode() == c1 + c2 + c3 + c4 + c5) by {
        reveal(PairingStatusUpdateModel::encode);
    }
    let m0 = a;
    let m1 = PairingStatusUpdateModel { session_id: if b.session_id.len() > 0 { b.session_id } else { m0.session_id }, ..m0 };
    lemma_pairing_status_update_read_session_id(m0, b, Seq::empty(), depth);
    assert(c1 + Seq::empty() =~= c1);
    lemma_merge_nothing::<PairingStatusUpdate>(m1, depth);
    let m2 = PairingStatusUpdateModel { status: if b.status.0 != 0 { b.status } else { m1.status }, ..m1 };
    lemma_pairing_status_update_read_status(m1, b, Seq::empty(), depth);
    assert(c2 + Seq::empty() =~= c2);
    lemma_merge_nothing::<PairingStatusUpdate>(m2, depth);
    lemma_merge_concat::<PairingStatusUpdate>(a, c1, c2, depth);
    let m3 = PairingStatusUpdateModel { error_message: if b.error_message.len() > 0 { b.error_message } else { m2.error_message }, ..m2 };
    lemma_pairing_status_update_read_error_message(m2, b, Seq::empty(), depth);
    assert(c3 + Seq::empty() =~= c3);
    lemma_merge_nothing::<PairingStatusUpdate>(m3, depth);
    lemma_merge_concat::<PairingStatusUpdate>(a, c1 + c2, c3, depth);
    let m4 = PairingStatusUpdateModel { timestamp: if b.timestamp != 0 { b.timestamp } else { m3.timestamp }, ..m3 };
    lemma_pairing_status_update_read_timestamp(m3, b, Seq::empty(), depth);
    assert(c4 + Seq::empty() =~= c4);
    lemma_merge_nothing::<PairingStatusUpdate>(m4, depth);
    lemma_merge_concat::<PairingStatusUpdate>(a, c1 + c2 + c3, c4, depth);
    let m5 = PairingStatusUpdateModel { unknown: m4.unknown + b.unknown, ..m4 };
    lemma_pairing_status_update_read_unknown(m4, b, Seq::empty(), depth);
    assert(c5 + Seq::empty() =~= c5);
    lemma_merge_nothing::<PairingStatusUpdate>(m5, depth);
    lemma_merge_concat::<PairingStatusUpdate>(a, c1 + c2 + c3 + c4, c5, depth);
    assert(m5 == a.merge(b)) by {
        reveal(PairingStatusUpdateModel::merge);
    }
}

/// Merging the empty message changes nothing.
pub proof fn lemma_pairing_status_update_merge_empty(a: PairingStatusUpdateModel)
    ensures
        a.merge(PairingStatusUpdateModel::empty()) == a,
{
    reveal(PairingStatusUpdateModel::merge);
    assert(a.unknown + Seq::empty() =~= a.unknown);
    assert(a.merge(PairingStatusUpdateModel::empty()) =~= a);
}

/// Merging a message into the empty one gives that message.
pub proof fn lemma_pairing_status_update_empty_merge(b: PairingStatusUpdateModel)
    ensures
        PairingStatusUpdateModel::empty().merge(b) == b,
{
    reveal(PairingStatusUpdateModel::merge);
    assert(b.session_id.len() == 0 ==> b.session_id =~= Seq::<char>::empty());
    assert(b.error_message.len() == 0 ==> b.error_message =~= Seq::<char>::empty());
    assert(Seq::empty() + b.unknown =~= b.unknown);
    assert(PairingStatusUpdateModel::empty().merge(b) =~= b);
}

/// Writing a message out and reading it back, with `depth` levels of
/// nesting left (`group_depth_limit()` for a message read on its own),
/// gives the same message.
pub proof fn lemma_pairing_status_update_roundtrip(m: PairingStatusUpdateModel, depth: nat)
    requires
        m.encode().len() <= size_limit(),
        m.well_formed_at(depth),
    ensures
        merge_message::<PairingStatusUpdate>(PairingStatusUpdateModel::empty(), m.encode(), depth) == Some(m),
{
    lemma_pairing_status_update_merge_wire(PairingStatusUpdateModel::empty(), m, depth);
    lemma_pairing_status_update_empty_merge(m);
}

/// Reading two encoded messages written one after the other, with `depth`
/// levels of nesting left, gives the second merged into the first.
pub proof fn lemma_pairing_status_update_concat(a: PairingStatusUpdateModel, b: PairingStatusUpdateModel, depth: nat)
    requires
        a.encode().len() <= size_limit(),
        b.encode().len() <= size_limit(),
        a.well_formed_at(depth),
        b.well_formed_at(depth),
    ensures
        merge_message::<PairingStatusUpdate>(PairingStatusUpdateModel::empty(), a.encode() + b.encode(), depth) == Some(a.merge(b)),
{
    lemma_pairing_status_update_roundtrip(a, depth);
    lemma_merge_concat::<PairingStatusUpdate>(PairingStatusUpdateModel::empty(), a.encode(), b.encode(), depth);
    lemma_pairing_status_update_merge_wire(a, b, depth);
}

/// Merging two well-formed messages gives a well-formed message.
pub proof fn lemma_pairing_status_update_merge_well_formed(a: PairingStatusUpdateModel, b: PairingStatusUpdateModel)
    requires
        a.well_formed(),
        b.well_formed(),
    ensures
        a.merge(b).well_formed(),
{
    reveal(PairingStatusUpdateModel::merge);
    lemma_unknown_fields_concat::<PairingStatusUpdate>(a.unknown, b.unknown, group_depth_limit());
}

/// Reading one whole field into a well-formed message keeps it well formed.
proof fn lemma_pairing_status_update_apply_well_formed(m: PairingStatusUpdateModel, field: nat, value: WireValue, raw: Seq<u8>, depth: nat)
    requires
        m.well_formed(),
        depth <= group_depth_limit(),
        decode_field(raw, depth) == Some((field, value, raw.len())),
        m.apply(field, value, raw, depth) is Some,
    ensures
        m.apply(field, value, raw, depth)->0.well_formed(),
{
    reveal(PairingStatusUpdateModel::apply);
    if PairingStatusUpdateModel::keeps_unknown(field, value) {
        lemma_decode_field_deeper(raw, depth, group_depth_limit());
        lemma_unknown_field::<PairingStatusUpdate>(raw, field, value, group_depth_limit());
        lemma_unknown_fields_concat::<PairingStatusUpdate>(m.unknown, raw, group_depth_limit());
    }
}

/// Reading whole fields into a well-formed message, with at most
/// `group_depth_limit()` levels of nesting left, keeps it well formed.
pub proof fn lemma_pairing_status_update_parse_well_formed(m: PairingStatusUpdateModel, s: Seq<u8>, depth: nat)
    requires
        m.well_formed(),
        depth <= group_depth_limit(),
        merge_message::<PairingStatusUpdate>(m, s, depth) is Some,
    ensures
        merge_message::<PairingStatusUpdate>(m, s, depth)->0.well_formed(),
{
    assert forall|x: PairingStatusUpdateModel, field: nat, value: WireValue, raw: Seq<u8>|
        x.well_formed() && decode_field(raw, depth) == Some((field, value, raw.len())) && #[trigger] PairingStatusUpdate::apply_wire(
            x,
            field,
            value,
            raw,
            depth,
        ) is Some implies PairingStatusUpdate::apply_wire(x, field, value, raw, depth)->0.well_formed() by {
        lemma_pairing_status_update_apply_well_formed(x, field, value, raw, depth);
    }
    lemma_merge_preserves::<PairingStatusUpdate>(m, s, |x: PairingStatusUpdateModel| x.well_formed(), depth);
}

/// A change in the state of a pairing session.
pub struct PairingStatusUpdate {
    session_id: String,
    status: PairingStatus,
    error_message: String,
    timestamp: u64,
    unknown: PairingStatusUpdateUnknown,
}

impl View for PairingStatusUpdate {
    type V = PairingStatusUpdateModel;

    closed spec fn view(&self) -> PairingStatusUpdateModel {
        PairingStatusUpdateModel {
            session_id: self.session_id@,
            status: self.status,
            error_message: self.error_message@,
            timestamp: self.timestamp,
            unknown: self.unknown@,
        }
    }
}

/// The unknown fields of a `PairingStatusUpdate`: whole fields it does not read, as they
/// came, in order.
struct PairingStatusUpdateUnknown {
    bytes: Vec<u8>,
}

impl View for PairingStatusUpdateUnknown {
    type V = Seq<u8>;

    closed spec fn view(&self) -> Seq<u8> {
        if unknown_run(self.bytes@, PairingStatusUpdateModel::keeps(), group_depth_limit()) {
            self.bytes@
        } else {
            Seq::empty()
        }
    }
}

impl PairingStatusUpdateUnknown {
    #[verifier::type_invariant]
    closed spec fn whole(self) -> bool {
        unknown_run(self.bytes@, PairingStatusUpdateModel::keeps(), group_depth_limit())
    }

    fn new() -> (r: Self)
        ensures
            r@ == Seq::<u8>::empty(),
    {
        proof {
            lemma_unknown_run_empty(PairingStatusUpdateModel::keeps(), group_depth_limit());
        }
        PairingStatusUpdateUnknown { bytes: Vec::new() }
    }

    /// Adds one whole field that the message does not read.
    fn push_field(&mut self, raw: &[u8], Ghost(field): Ghost<nat>, Ghost(value): Ghost<WireValue>)
        requires
            decode_field(raw@, group_depth_limit()) == Some((field, value, raw@.len())),
            PairingStatusUpdateModel::keeps_unknown(field, value),
        ensures
            final(self)@ == old(self)@ + raw@,
    {
        proof {
            use_type_invariant(&*self);
            lemma_unknown_run_field(raw@, field, value, PairingStatusUpdateModel::keeps(), group_depth_limit());
            lemma_unknown_run_concat(self.bytes@, raw@, PairingStatusUpdateModel::keeps(), group_depth_limit());
            lemma_unknown_run_empty(PairingStatusUpdateModel::keeps(), group_depth_limit());
        }
        let mut bytes = Vec::new();
        std::mem::swap(&mut bytes, &mut self.bytes);
        append_bytes(&mut bytes, raw);
        self.bytes = bytes;
    }

    /// Adds the unknown fields of another message of the same kind.
    fn append(&mut self, other: &Self)
        ensures
            final(self)@ == old(self)@ + other@,
    {
        proof {
            use_type_invariant(&*self);
            use_type_invariant(other);
            lemma_unknown_run_concat(self.bytes@, other.bytes@, PairingStatusUpdateModel::keeps(), group_depth_limit());
            lemma_unknown_run_empty(PairingStatusUpdateModel::keeps(), group_depth_limit());
        }
        let mut bytes = Vec::new();
        std::mem::swap(&mut bytes, &mut self.bytes);
        append_bytes(&mut bytes, other.bytes.as_slice());
        self.bytes = bytes;
    }

    fn as_slice(&self) -> (r: &[u8])
        ensures
            r@ == self@,
    {
        proof {
            use_type_invariant(self);
        }
        self.bytes.as_slice()
    }

    fn copy(&self) -> (r: Self)
        ensures
            r@ == self@,
    {
        proof {
            use_type_invariant(self);
        }
        PairingStatusUpdateUnknown { bytes: copy_bytes(self.bytes.as_slice()) }
    }
}

impl WireMessage for PairingStatusUpdate {
    open spec fn apply_wire(message: PairingStatusUpdateModel, field: nat, value: WireValue, raw: Seq<u8>, depth: nat) -> Option<PairingStatusUpdateModel> {
        message.apply(field, value, raw, depth)
    }

    open spec fn keeps_unknown(field: nat, value: WireValue) -> bool {
        PairingStatusUpdateModel::keeps_unknown(field, value)
    }

    open spec fn add_unknown(message: PairingStatusUpdateModel, raw: Seq<u8>) -> PairingStatusUpdateModel {
        PairingStatusUpdateModel { unknown: message.unknown + raw, ..message }
    }

    proof fn lemma_apply_unknown(message: PairingStatusUpdateModel, field: nat, value: WireValue, raw: Seq<u8>, depth: nat) {
        reveal(PairingStatusUpdateModel::apply);
    }

    proof fn lemma_add_unknown(message: PairingStatusUpdateModel, a: Seq<u8>, b: Seq<u8>) {
        assert(message.unknown + a + b =~= message.unknown + (a + b));
        assert(message.unknown + Seq::<u8>::empty() =~= message.unknown);
    }

    fn apply_field(
        &mut self,
        data: &[u8],
        field: u32,
        value: FieldValue,
        start: usize,
        end: usize,
        depth: u32,
    ) -> (ok: bool) {
        proof {
            reveal(PairingStatusUpdateModel::apply);
        }
        if field == 1 {
            if let FieldValue::Delimited(from, to) = value {
                match proto_string(&data[from..to]) {
                    Some(text) => self.session_id = text,
                    None => return false,
                }
                return true;
            }
        } else if field == 2 {
            if let FieldValue::Varint(v) = value {
                self.status = PairingStatus(to_i32(v));
                return true;
            }
        } else if field == 3 {
            if let FieldValue::Delimited(from, to) = value {
                match proto_string(&data[from..to]) {
                    Some(text) => self.error_message = text,
                    None => return false,
                }
                return true;
            }
        } else if field == 4 {
            if let FieldValue::Varint(v) = value {
                self.timestamp = v;
                return true;
            }
        }
        proof {
            lemma_decode_field_deeper(data@.subrange(start as int, end as int), depth as nat, group_depth_limit());
        }
        self.unknown.push_field(&data[start..end], Ghost(field as nat), Ghost(value.wire(data@)));
        true
    }
}

/// The content of every `PairingStatusUpdate` is well formed.
pub proof fn lemma_pairing_status_update_well_formed(m: PairingStatusUpdate)
    ensures
        m@.well_formed(),
{
    lemma_unknown_run_fields::<PairingStatusUpdate>(m.unknown.bytes@, PairingStatusUpdateModel::keeps(), group_depth_limit());
}

impl PairingStatusUpdate {
    /// A message with every field at its default.
    pub fn new() -> (r: Self)
        ensures
            r@ == PairingStatusUpdateModel::empty(),
    {
        let r = PairingStatusUpdate {
            session_id: String::new(),
            status: PairingStatus(0),
            error_message: String::new(),
            timestamp: 0,
            unknown: PairingStatusUpdateUnknown::new(),
        };
        r
    }

    /// Reads a message from its wire form.
    pub fn parse(data: &[u8]) -> (r: Result<Self, protobuf::ParseError>)
        ensures
            match merge_message::<PairingStatusUpdate>(PairingStatusUpdateModel::empty(), data@, group_depth_limit()) {
                Some(m) => r matches Ok(msg) && msg@ == m && m.well_formed(),
                None => r is Err,
            },
    {
        proof {
            if merge_message::<PairingStatusUpdate>(PairingStatusUpdateModel::empty(), data@, group_depth_limit()) is Some {
                lemma_pairing_status_update_parse_well_formed(PairingStatusUpdateModel::empty(), data@, group_depth_limit());
            }
        }
        let mut msg = Self::new();
        if merge_bytes(&mut msg, data, 100) {
            Ok(msg)
        } else {
            Err(parse_error())
        }
    }

    /// Same as `parse`: the message has no required fields.
    pub fn parse_dont_enforce_required(data: &[u8]) -> (r: Result<Self, protobuf::ParseError>)
        ensures
            match merge_message::<PairingStatusUpdate>(PairingStatusUpdateModel::empty(), data@, group_depth_limit()) {
                Some(m) => r matches Ok(msg) && msg@ == m && m.well_formed(),
                None => r is Err,
            },
    {
        Self::parse(data)
    }

    /// Resets every field to its default.
    pub fn clear(&mut self)
        ensures
            final(self)@ == PairingStatusUpdateModel::empty(),
    {
        *self = PairingStatusUpdate::new();
    }

    /// Replaces the message by the one `data` encodes; on an error what the
    /// message then holds is unspecified.
    pub fn clear_and_parse(&mut self, data: &[u8]) -> (r: Result<(), protobuf::ParseError>)
        ensures
            match merge_message::<PairingStatusUpdate>(PairingStatusUpdateModel::empty(), data@, group_depth_limit()) {
                Some(m) => r is Ok && final(self)@ == m && m.well_formed(),
                None => r is Err,
            },
    {
        proof {
            if merge_message::<PairingStatusUpdate>(PairingStatusUpdateModel::empty(), data@, group_depth_limit()) is Some {
                lemma_pairing_status_update_parse_well_formed(PairingStatusUpdateModel::empty(), data@, group_depth_limit());
            }
        }
        *self = PairingStatusUpdate::new();
        if merge_bytes(self, data, 100) {
            Ok(())
        } else {
            Err(parse_error())
        }
    }

    /// Same as `clear_and_parse`: the message has no required fields; on an error what the
    /// message then holds is unspecified.
    pub fn clear_and_parse_dont_enforce_required(&mut self, data: &[u8]) -> (r: Result<(), protobuf::ParseError>)
        ensures
            match merge_message::<PairingStatusUpdate>(PairingStatusUpdateModel::empty(), data@, group_depth_limit()) {
                Some(m) => r is Ok && final(self)@ == m && m.well_formed(),
                None => r is Err,
            },
    {
        self.clear_and_parse(data)
    }

    /// Makes this message a copy of `src`.
    pub fn copy_from(&mut self, src: PairingStatusUpdateView<'_>)
        ensures
            final(self)@ == src@,
    {
        *self = src.to_owned();
    }

    /// Moves the content of `src` here, leaving `src` empty.
    pub fn take_from(&mut self, src: &mut PairingStatusUpdate)
        ensures
            final(self)@ == old(src)@,
            final(src)@ == PairingStatusUpdateModel::empty(),
    {
        let mut taken = PairingStatusUpdate::new();
        std::mem::swap(&mut taken, src);
        *self = taken;
    }

    /// Merges `src` into this message (see `merge` on the model).
    pub fn merge_from(&mut self, src: PairingStatusUpdateView<'_>)
        ensures
            final(self)@ == old(self)@.merge(src@),
    {
        match src.msg {
            Some(other) => self.merge_fields_from(other),
            None => {
                proof {
                    lemma_pairing_status_update_merge_empty(self@);
                }
            },
        }
    }

    fn merge_fields_from(&mut self, other: &PairingStatusUpdate)
        ensures
            final(self)@ == old(self)@.merge(other@),
    {
        proof {
            reveal(PairingStatusUpdateModel::merge);
        }
        let ghost start = self@;
        if !other.session_id.as_str().is_empty() {
            self.session_id = other.session_id.clone();
        }
        if other.status.0 != 0 {
            self.status = other.status;
        }
        if !other.error_message.as_str().is_empty() {
            self.error_message = other.error_message.clone();
        }
        if other.timestamp != 0 {
            self.timestamp = other.timestamp;
        }
        self.unknown.append(&other.unknown);
        assert(self@ =~= start.merge(other@));
    }

    /// Appends the wire form to `buf`.
    pub fn write_to(&self, buf: &mut Vec<u8>)
        ensures
            final(buf)@ == old(buf)@ + self@.encode(),
    {
        let ghost start = buf@;
        let ghost c1 = bytes_field(1, encode_utf8(self@.session_id));
        let ghost c2 = varint_field(2, i32_wire(self@.status.0));
        let ghost c3 = bytes_field(3, encode_utf8(self@.error_message));
        let ghost c4 = varint_field(4, self@.timestamp);
        let ghost c5 = self@.unknown;
        write_bytes_field(buf, 1, self.session_id.as_str().as_bytes());
        let ghost mut written = c1;
        assert(buf@ == start + written);
        write_varint_field(buf, 2, from_i32(self.status.0));
        proof {
            lemma_concat_associative(start, written, c2);
            written = written + c2;
        }
        assert(buf@ == start + written);
        write_bytes_field(buf, 3, self.error_message.as_str().as_bytes());
        proof {
            lemma_concat_associative(start, written, c3);
            written = written + c3;
        }
        assert(buf@ == start + written);
        write_varint_field(buf, 4, self.timestamp);
        proof {
            lemma_concat_associative(start, written, c4);
            written = written + c4;
        }
        assert(buf@ == start + written);
        append_bytes(buf, self.unknown.as_slice());
        proof {
            lemma_concat_associative(start, written, c5);
            written = written + c5;
        }
        assert(buf@ == start + written);
        assert(self@.encode() == written) by {
            assert(written == c1 + c2 + c3 + c4 + c5);
            reveal(PairingStatusUpdateModel::encode);
        }
    }

    /// The wire form, refused when it is longer than `i32::MAX` bytes. The
    /// message is well formed, so the wire form reads back as the message.
    pub fn serialize(&self) -> (r: Result<Vec<u8>, protobuf::SerializeError>)
        ensures
            match r {
                Ok(bytes) => bytes@ == self@.encode() && self@.encode().len() <= 0x7fff_ffff,
                Err(_) => self@.encode().len() > 0x7fff_ffff,
            },
            self@.well_formed(),
            self@.encode().len() <= size_limit() ==> merge_message::<PairingStatusUpdate>(
                PairingStatusUpdateModel::empty(),
                self@.encode(),
                group_depth_limit(),
            ) == Some(self@),
    {
        proof {
            lemma_pairing_status_update_well_formed(*self);
            if self@.encode().len() <= size_limit() {
                lemma_pairing_status_update_roundtrip(self@, group_depth_limit());
            }
        }
        let mut buf = Vec::new();
        self.write_to(&mut buf);
        assert(buf@ =~= self@.encode());
        if buf.len() > 0x7fff_ffff {
            return Err(serialize_error());
        }
        Ok(buf)
    }

    pub fn as_view(&self) -> (r: PairingStatusUpdateView<'_>)
        ensures
            r@ == self@,
    {
        PairingStatusUpdateView::new(self)
    }

    pub fn as_mut(&mut self) -> (r: PairingStatusUpdateMut<'_>)
        ensures
            r@ == old(self)@,
            *final(self) == *final(r.msg),
    {
        PairingStatusUpdateMut::new(self)
    }

    pub fn session_id(&self) -> (r: &str)
        ensures
            r@ == self@.session_id,
    {
        self.session_id.as_str()
    }

    pub fn set_session_id(&mut self, val: &str)
        ensures
            final(self)@ == (PairingStatusUpdateModel { session_id: val@, ..old(self)@ }),
    {
        self.session_id = val.to_owned();
    }

    pub fn status(&self) -> (r: PairingStatus)
        ensures
            r == self@.status,
    {
        self.status
    }

    pub fn set_status(&mut self, val: PairingStatus)
        ensures
            final(self)@ == (PairingStatusUpdateModel { status: val, ..old(self)@ }),
    {
        self.status = val;
    }

    pub fn error_message(&self) -> (r: &str)
        ensures
            r@ == self@.error_message,
    {
        self.error_message.as_str()
    }

    pub fn set_error_message(&mut self, val: &str)
        ensures
            final(self)@ == (PairingStatusUpdateModel { error_message: val@, ..old(self)@ }),
    {
        self.error_message = val.to_owned();
    }

    pub fn timestamp(&self) -> (r: u64)
        ensures
            r == self@.timestamp,
    {
        self.timestamp
    }

    pub fn set_timestamp(&mut self, val: u64)
        ensures
            final(self)@ == (PairingStatusUpdateModel { timestamp: val, ..old(self)@ }),
    {
        self.timestamp = val;
    }
}

impl Clone for PairingStatusUpdate {
    fn clone(&self) -> (r: Self)
        ensures
            r@ == self@,
    {
        let r = PairingStatusUpdate {
            session_id: self.session_id.clone(),
            status: self.status,
            error_message: self.error_message.clone(),
            timestamp: self.timestamp,
            unknown: self.unknown.copy(),
        };
        r
    }
}

impl Default for PairingStatusUpdate {
    fn default() -> (r: Self)
        ensures
            r@ == PairingStatusUpdateModel::empty(),
    {
        Self::new()
    }
}

/// Read access to a `PairingStatusUpdate`; the default view reads as the empty message.
#[derive(Clone, Copy)]
pub struct PairingStatusUpdateView<'msg> {
    msg: Option<&'msg PairingStatusUpdate>,
}

impl<'msg> View for PairingStatusUpdateView<'msg> {
    type V = PairingStatusUpdateModel;

    closed spec fn view(&self) -> PairingStatusUpdateModel {
        match self.msg {
            Some(m) => m@,
            None => PairingStatusUpdateModel::empty(),
        }
    }
}

impl<'msg> PairingStatusUpdateView<'msg> {
    pub fn new(msg: &'msg PairingStatusUpdate) -> (r: Self)
        ensures
            r@ == msg@,
    {
        PairingStatusUpdateView { msg: Some(msg) }
    }

    /// An owned copy of the message.
    pub fn to_owned(&self) -> (r: PairingStatusUpdate)
        ensures
            r@ == self@,
    {
        match self.msg {
            Some(m) => m.clone(),
            None => PairingStatusUpdate::new(),
        }
    }

    /// The wire form, refused when it is longer than `i32::MAX` bytes. The
    /// message is well formed, so the wire form reads back as the message.
    pub fn serialize(&self) -> (r: Result<Vec<u8>, protobuf::SerializeError>)
        ensures
            match r {
                Ok(bytes) => bytes@ == self@.encode() && self@.encode().len() <= 0x7fff_ffff,
                Err(_) => self@.encode().len() > 0x7fff_ffff,
            },
            self@.well_formed(),
            self@.encode().len() <= size_limit() ==> merge_message::<PairingStatusUpdate>(
                PairingStatusUpdateModel::empty(),
                self@.encode(),
                group_depth_limit(),
            ) == Some(self@),
    {
        match self.msg {
            Some(m) => m.serialize(),
            None => PairingStatusUpdate::new().serialize(),
        }
    }

    pub fn session_id(self) -> (r: &'msg str)
        ensures
            r@ == self@.session_id,
    {
        match self.msg {
            Some(m) => m.session_id.as_str(),
            None => {
                proof {
                    reveal_strlit("");
                }
                ""
            },
        }
    }

    pub fn status(self) -> (r: PairingStatus)
        ensures
            r == self@.status,
    {
        match self.msg {
            Some(m) => m.status,
            None => PairingStatus(0),
        }
    }

    pub fn error_message(self) -> (r: &'msg str)
        ensures
            r@ == self@.error_message,
    {
        match self.msg {
            Some(m) => m.error_message.as_str(),
            None => {
                proof {
                    reveal_strlit("");
                }
                ""
            },
        }
    }

    pub fn timestamp(self) -> (r: u64)
        ensures
            r == self@.timestamp,
    {
        match self.msg {
            Some(m) => m.timestamp,
            None => 0,
        }
    }
}

impl<'msg> Default for PairingStatusUpdateView<'msg> {
    fn default() -> (r: Self)
        ensures
            r@ == PairingStatusUpdateModel::empty(),
    {
        PairingStatusUpdateView { msg: None }
    }
}

/// Write access to a `PairingStatusUpdate` held elsewhere.
pub struct PairingStatusUpdateMut<'msg> {
    /// The message written through this handle.
    pub msg: &'msg mut PairingStatusUpdate,
}

impl<'msg> View for PairingStatusUpdateMut<'msg> {
    type V = PairingStatusUpdateModel;

    open spec fn view(&self) -> PairingStatusUpdateModel {
        (*self.msg)@
    }
}

impl<'msg> PairingStatusUpdateMut<'msg> {
    pub fn new(msg: &'msg mut PairingStatusUpdate) -> (r: Self)
        ensures
            r@ == old(msg)@,
            *final(msg) == *final(r.msg),
    {
        PairingStatusUpdateMut { msg }
    }

    /// An owned copy of the message.
    pub fn to_owned(&self) -> (r: PairingStatusUpdate)
        ensures
            r@ == self@,
    {
        self.msg.clone()
    }

    pub fn as_view(&self) -> (r: PairingStatusUpdateView<'_>)
        ensures
            r@ == self@,
    {
        PairingStatusUpdateView::new(self.msg)
    }

    /// The wire form, refused when it is longer than `i32::MAX` bytes. The
    /// message is well formed, so the wire form reads back as the message.
    pub fn serialize(&self) -> (r: Result<Vec<u8>, protobuf::SerializeError>)
        ensures
            match r {
                Ok(bytes) => bytes@ == self@.encode() && self@.encode().len() <= 0x7fff_ffff,
                Err(_) => self@.encode().len() > 0x7fff_ffff,
            },
            self@.well_formed(),
            self@.encode().len() <= size_limit() ==> merge_message::<PairingStatusUpdate>(
                PairingStatusUpdateModel::empty(),
                self@.encode(),
                group_depth_limit(),
            ) == Some(self@),
    {
        self.msg.serialize()
    }

    /// Resets every field to its default.
    pub fn clear(&mut self)
        ensures
            final(self)@ == PairingStatusUpdateModel::empty(),
            *final(final(self).msg) == *final(old(self).msg),
    {
        self.msg.clear();
    }

    /// Replaces the message by the one `data` encodes.
    pub fn clear_and_parse(&mut self, data: &[u8]) -> (r: Result<(), protobuf::ParseError>)
        ensures
            match merge_message::<PairingStatusUpdate>(PairingStatusUpdateModel::empty(), data@, group_depth_limit()) {
                Some(m) => r is Ok && final(self)@ == m && m.well_formed(),
                None => r is Err,
            },
            *final(final(self).msg) == *final(old(self).msg),
    {
        self.msg.clear_and_parse(data)
    }

    /// Replaces the message by the one `data` encodes.
    pub fn clear_and_parse_dont_enforce_required(&mut self, data: &[u8]) -> (r: Result<(), protobuf::ParseError>)
        ensures
            match merge_message::<PairingStatusUpdate>(PairingStatusUpdateModel::empty(), data@, group_depth_limit()) {
                Some(m) => r is Ok && final(self)@ == m && m.well_formed(),
                None => r is Err,
            },
            *final(final(self).msg) == *final(old(self).msg),
    {
        self.msg.clear_and_parse_dont_enforce_required(data)
    }

    /// Makes the message a copy of `src`.
    pub fn copy_from(&mut self, src: PairingStatusUpdateView<'_>)
        ensures
            final(self)@ == src@,
            *final(final(self).msg) == *final(old(self).msg),
    {
        self.msg.copy_from(src);
    }

    /// Merges `src` into the message.
    pub fn merge_from(&mut self, src: PairingStatusUpdateView<'_>)
        ensures
            final(self)@ == old(self)@.merge(src@),
            *final(final(self).msg) == *final(old(self).msg),
    {
        self.msg.merge_from(src);
    }

    pub fn session_id(&self) -> (r: &str)
        ensures
            r@ == self@.session_id,
    {
        self.msg.session_id()
    }

    pub fn set_session_id(&mut self, val: &str)
        ensures
            final(self)@ == (PairingStatusUpdateModel { session_id: val@, ..old(self)@ }),
            *final(final(self).msg) == *final(old(self).msg),
    {
        self.msg.set_session_id(val);
    }

    pub fn status(&self) -> (r: PairingStatus)
        ensures
            r == self@.status,
    {
        self.msg.status()
    }

    pub fn set_status(&mut self, val: PairingStatus)
        ensures
            final(self)@ == (PairingStatusUpdateModel { status: val, ..old(self)@ }),
            *final(final(self).msg) == *final(old(self).msg),
    {
        self.msg.set_status(val);
    }

    pub fn error_message(&self) -> (r: &str)
        ensures
            r@ == self@.error_message,
    {
        self.msg.error_message()
    }

    pub fn set_error_message(&mut self, val: &str)
        ensures
            final(self)@ == (PairingStatusUpdateModel { error_message: val@, ..old(self)@ }),
            *final(final(self).msg) == *final(old(self).msg),
    {
        self.msg.set_error_message(val);
    }

    pub fn timestamp(&self) -> (r: u64)
        ensures
            r == self@.timestamp,
    {
        self.msg.timestamp()
    }

    pub fn set_timestamp(&mut self, val: u64)
        ensures
            final(self)@ == (PairingStatusUpdateModel { timestamp: val, ..old(self)@ }),
            *final(final(self).msg) == *final(old(self).msg),
    {
        self.msg.set_timestamp(val);
    }
}

/// The content of a `UnpairingRequest`.
pub struct UnpairingRequestModel {
    pub device_id: Seq<char>,
    pub reason: Seq<char>,
    pub signature: Seq<u8>,
    /// The fields read but not understood, as they came, in order.
    pub unknown: Seq<u8>,
}

impl UnpairingRequestModel {
    /// The message with every field at its default.
    pub open spec fn empty() -> Self {
        UnpairingRequestModel {
            device_id: Seq::empty(),
            reason: Seq::empty(),
            signature: Seq::empty(),
            unknown: Seq::empty(),
        }
    }

    /// The wire form: fields in number order, defaults and absent
    /// sub-messages left out, then the unknown fields as they came.
    #[verifier::opaque]
    pub open spec fn encode(self) -> Seq<u8> {
        bytes_field(1, encode_utf8(self.device_id))
            + bytes_field(2, encode_utf8(self.reason))
            + bytes_field(3, self.signature)
            + self.unknown
    }

    /// Whether a field is kept, as it came, among the unknown fields: its
    /// number is not one of this message's, or it comes with another wire
    /// type than its field is written with.
    pub open spec fn keeps_unknown(field: nat, value: WireValue) -> bool {
        if field == 1 {
            !(value is Delimited)
        } else if field == 2 {
            !(value is Delimited)
        } else if field == 3 {
            !(value is Delimited)
        } else {
            true
        }
    }

    /// `keeps_unknown` as a function.
    pub open spec fn keeps() -> spec_fn(nat, WireValue) -> bool {
        |field: nat, value: WireValue| UnpairingRequestModel::keeps_unknown(field, value)
    }

    /// How one field of the wire form changes the message; `raw` is the
    /// field as it came. `None` when the field's content is malformed.
    #[verifier::opaque]
    pub open spec fn apply(self, field: nat, value: WireValue, raw: Seq<u8>, depth: nat) -> Option<Self> {
        if Self::keeps_unknown(field, value) {
            Some(UnpairingRequestModel { unknown: self.unknown + raw, ..self })
        } else if field == 1 {
            match value {
                WireValue::Delimited(b) => if valid_utf8(b) {
                    Some(UnpairingRequestModel { device_id: decode_utf8(b), ..self })
                } else {
                    None
                },
                _ => Some(self),
            }
        } else if field == 2 {
            match value {
                WireValue::Delimited(b) => if valid_utf8(b) {
                    Some(UnpairingRequestModel { reason: decode_utf8(b), ..self })
                } else {
                    None
                },
                _ => Some(self),
            }
        } else if field == 3 {
            match value {
                WireValue::Delimited(b) => Some(UnpairingRequestModel { signature: b, ..self }),
                _ => Some(self),
            }
        } else {
            Some(self)
        }
    }

    /// `other` merged into this message, as protobuf merges: a scalar, string
    /// or bytes field set in `other` replaces the one here, repeated fields
    /// are appended, sub-messages are merged, map entries inserted and
    /// unknown fields appended.
    #[verifier::opaque]
    pub open spec fn merge(self, other: Self) -> Self {
        UnpairingRequestModel {
            device_id: if other.device_id.len() > 0 { other.device_id } else { self.device_id },
            reason: if other.reason.len() > 0 { other.reason } else { self.reason },
            signature: if other.signature.len() > 0 { other.signature } else { self.signature },
            unknown: self.unknown + other.unknown,
        }
    }

    /// What writing the message out and reading it back relies on: the
    /// unknown fields are whole fields this message does not read, and
    /// the same holds of every sub-message.
    pub open spec fn well_formed(self) -> bool {
        &&& unknown_fields::<UnpairingRequest>(self.unknown, group_depth_limit())
    }

    /// What reading the wire form back with `depth` levels of nesting left
    /// relies on: the message is well formed, its unknown fields read as
    /// whole fields with `depth` levels, and each sub-message reads back
    /// with one level less.
    pub open spec fn well_formed_at(self, depth: nat) -> bool {
        &&& self.well_formed()
        &&& unknown_fields::<UnpairingRequest>(self.unknown, depth)
    }
}

/// Reading the `device_id` field as `b` writes it merges it into `m`.
proof fn lemma_unpairing_request_read_device_id(m: UnpairingRequestModel, b: UnpairingRequestModel, rest: Seq<u8>, depth: nat)
    requires
        bytes_field(1, encode_utf8(b.device_id)).len() <= size_limit(),
    ensures
        merge_message::<UnpairingRequest>(m, bytes_field(1, encode_utf8(b.device_id)) + rest, depth) == merge_message::<UnpairingRequest>(
            UnpairingRequestModel { device_id: if b.device_id.len() > 0 { b.device_id } else { m.device_id }, ..m },
            rest,
            depth,
        ),
{
    let next = UnpairingRequestModel { device_id: if b.device_id.len() > 0 { b.device_id } else { m.device_id }, ..m };
    reveal(UnpairingRequestModel::apply);
    encode_utf8_decode_utf8(b.device_id);
    encode_utf8_valid_utf8(b.device_id);
    lemma_merge_bytes_field::<UnpairingRequest>(m, 1, encode_utf8(b.device_id), rest, next, depth);
}

/// Reading the `reason` field as `b` writes it merges it into `m`.
proof fn lemma_unpairing_request_read_reason(m: UnpairingRequestModel, b: UnpairingRequestModel, rest: Seq<u8>, depth: nat)
    requires
        bytes_field(2, encode_utf8(b.reason)).len() <= size_limit(),
    ensures
        merge_message::<UnpairingRequest>(m, bytes_field(2, encode_utf8(b.reason)) + rest, depth) == merge_message::<UnpairingRequest>(
            UnpairingRequestModel { reason: if b.reason.len() > 0 { b.reason } else { m.reason }, ..m },
            rest,
            depth,
        ),
{
    let next = UnpairingRequestModel { reason: if b.reason.len() > 0 { b.reason } else { m.reason }, ..m };
    reveal(UnpairingRequestModel::apply);
    encode_utf8_decode_utf8(b.reason);
    encode_utf8_valid_utf8(b.reason);
    lemma_merge_bytes_field::<UnpairingRequest>(m, 2, encode_utf8(b.reason), rest, next, depth);
}

/// Reading the `signature` field as `b` writes it merges it into `m`.
proof fn lemma_unpairing_request_read_signature(m: UnpairingRequestModel, b: UnpairingRequestModel, rest: Seq<u8>, depth: nat)
    requires
        bytes_field(3, b.signature).len() <= size_limit(),
    ensures
        merge_message::<UnpairingRequest>(m, bytes_field(3, b.signature) + rest, depth) == merge_message::<UnpairingRequest>(
            UnpairingRequestModel { signature: if b.signature.len() > 0 { b.signature } else { m.signature }, ..m },
            rest,
            depth,
        ),
{
    let next = UnpairingRequestModel { signature: if b.signature.len() > 0 { b.signature } else { m.signature }, ..m };
    reveal(UnpairingRequestModel::apply);
    lemma_merge_bytes_field::<UnpairingRequest>(m, 3, b.signature, rest, next, depth);
}

/// Reading the unknown fields as `b` writes them adds them to those of `m`.
proof fn lemma_unpairing_request_read_unknown(m: UnpairingRequestModel, b: UnpairingRequestModel, rest: Seq<u8>, depth: nat)
    requires
        b.unknown.len() <= size_limit(),
        b.well_formed_at(depth),
    ensures
        merge_message::<UnpairingRequest>(m, b.unknown + rest, depth) == merge_message::<UnpairingRequest>(
            UnpairingRequestModel { unknown: m.unknown + b.unknown, ..m },
            rest,
            depth,
        ),
{
    lemma_merge_unknown::<UnpairingRequest>(m, b.unknown, rest, depth);
}

/// Reading the wire form of `b` into `a`, with `depth` levels of nesting left,
/// gives `b` merged into `a`.
pub proof fn lemma_unpairing_request_merge_wire(a: UnpairingRequestModel, b: UnpairingRequestModel, depth: nat)
    requires
        b.encode().len() <= size_limit(),
        b.well_formed_at(depth),
    ensures
        merge_message::<UnpairingRequest>(a, b.encode(), depth) == Some(a.merge(b)),
{
    let c1 = bytes_field(1, encode_utf8(b.device_id));
    let c2 = bytes_field(2, encode_utf8(b.reason));
    let c3 = bytes_field(3, b.signature);
    let c4 = b.unknown;
    assert(b.encode() == c1 + c2 + c3 + c4) by {
        reveal(UnpairingRequestModel::encode);
    }
    let m0 = a;
    let m1 = UnpairingRequestModel { device_id: if b.device_id.len() > 0 { b.device_id } else { m0.device_id }, ..m0 };
    lemma_unpairing_request_read_device_id(m0, b, Seq::empty(), depth);
    assert(c1 + Seq::empty() =~= c1);
    lemma_merge_nothing::<UnpairingRequest>(m1, depth);
    let m2 = UnpairingRequestModel { reason: if b.reason.len() > 0 { b.reason } else { m1.reason }, ..m1 };
    lemma_unpairing_request_read_reason(m1, b, Seq::empty(), depth);
    assert(c2 + Seq::empty() =~= c2);
    lemma_merge_nothing::<UnpairingRequest>(m2, depth);
    lemma_merge_concat::<UnpairingRequest>(a, c1, c2, depth);
    let m3 = UnpairingRequestModel { signature: if b.signature.len() > 0 { b.signature } else { m2.signature }, ..m2 };
    lemma_unpairing_request_read_signature(m2, b, Seq::empty(), depth);
    assert(c3 + Seq::empty() =~= c3);
    lemma_merge_nothing::<UnpairingRequest>(m3, depth);
    lemma_merge_concat::<UnpairingRequest>(a, c1 + c2, c3, depth);
    let m4 = UnpairingRequestModel { unknown: m3.unknown + b.unknown, ..m3 };
    lemma_unpairing_request_read_unknown(m3, b, Seq::empty(), depth);
    assert(c4 + Seq::empty() =~= c4);
    lemma_merge_nothing::<UnpairingRequest>(m4, depth);
    lemma_merge_concat::<UnpairingRequest>(a, c1 + c2 + c3, c4, depth);
    assert(m4 == a.merge(b)) by {
        reveal(UnpairingRequestModel::merge);
    }
}

/// Merging the empty message changes nothing.
pub proof fn lemma_unpairing_request_merge_empty(a: UnpairingRequestModel)
    ensures
        a.merge(UnpairingRequestModel::empty()) == a,
{
    reveal(UnpairingRequestModel::merge);
    assert(a.unknown + Seq::empty() =~= a.unknown);
    assert(a.merge(UnpairingRequestModel::empty()) =~= a);
}

/// Merging a message into the empty one gives that message.
pub proof fn lemma_unpairing_request_empty_merge(b: UnpairingRequestModel)
    ensures
        UnpairingRequestModel::empty().merge(b) == b,
{
    reveal(UnpairingRequestModel::merge);
    assert(b.device_id.len() == 0 ==> b.device_id =~= Seq::<char>::empty());
    assert(b.reason.len() == 0 ==> b.reason =~= Seq::<char>::empty());
    assert(b.signature.len() == 0 ==> b.signature =~= Seq::<u8>::empty());
    assert(Seq::empty() + b.unknown =~= b.unknown);
    assert(UnpairingRequestModel::empty().merge(b) =~= b);
}

/// Writing a message out and reading it back, with `depth` levels of
/// nesting left (`group_depth_limit()` for a message read on its own),
/// gives the same message.
pub proof fn lemma_unpairing_request_roundtrip(m: UnpairingRequestModel, depth: nat)
    requires
        m.encode().len() <= size_limit(),
        m.well_formed_at(depth),
    ensures
        merge_message::<UnpairingRequest>(UnpairingRequestModel::empty(), m.encode(), depth) == Some(m),
{
    lemma_unpairing_request_merge_wire(UnpairingRequestModel::empty(), m, depth);
    lemma_unpairing_request_empty_merge(m);
}

/// Reading two encoded messages written one after the other, with `depth`
/// levels of nesting left, gives the second merged into the first.
pub proof fn lemma_unpairing_request_concat(a: UnpairingRequestModel, b: UnpairingRequestModel, depth: nat)
    requires
        a.encode().len() <= size_limit(),
        b.encode().len() <= size_limit(),
        a.well_formed_at(depth),
        b.well_formed_at(depth),
    ensures
        merge_message::<UnpairingRequest>(UnpairingRequestModel::empty(), a.encode() + b.encode(), depth) == Some(a.merge(b)),
{
    lemma_unpairing_request_roundtrip(a, depth);
    lemma_merge_concat::<UnpairingRequest>(UnpairingRequestModel::empty(), a.encode(), b.encode(), depth);
    lemma_unpairing_request_merge_wire(a, b, depth);
}

/// Merging two well-formed messages gives a well-formed message.
pub proof fn lemma_unpairing_request_merge_well_formed(a: UnpairingRequestModel, b: UnpairingRequestModel)
    requires
        a.well_formed(),
        b.well_formed(),
    ensures
        a.merge(b).well_formed(),
{
    reveal(UnpairingRequestModel::merge);
    lemma_unknown_fields_concat::<UnpairingRequest>(a.unknown, b.unknown, group_depth_limit());
}

/// Reading one whole field into a well-formed message keeps it well formed.
proof fn lemma_unpairing_request_apply_well_formed(m: UnpairingRequestModel, field: nat, value: WireValue, raw: Seq<u8>, depth: nat)
    requires
        m.well_formed(),
        depth <= group_depth_limit(),
        decode_field(raw, depth) == Some((field, value, raw.len())),
        m.apply(field, value, raw, depth) is Some,
    ensures
        m.apply(field, value, raw, depth)->0.well_formed(),
{
    reveal(UnpairingRequestModel::apply);
    if UnpairingRequestModel::keeps_unknown(field, value) {
        lemma_decode_field_deeper(raw, depth, group_depth_limit());
        lemma_unknown_field::<UnpairingRequest>(raw, field, value, group_depth_limit());
        lemma_unknown_fields_concat::<UnpairingRequest>(m.unknown, raw, group_depth_limit());
    }
}

/// Reading whole fields into a well-formed message, with at most
/// `group_depth_limit()` levels of nesting left, keeps it well formed.
pub proof fn lemma_unpairing_request_parse_well_formed(m: UnpairingRequestModel, s: Seq<u8>, depth: nat)
    requires
        m.well_formed(),
        depth <= group_depth_limit(),
        merge_message::<UnpairingRequest>(m, s, depth) is Some,
    ensures
        merge_message::<UnpairingRequest>(m, s, depth)->0.well_formed(),
{
    assert forall|x: UnpairingRequestModel, field: nat, value: WireValue, raw: Seq<u8>|
        x.well_formed() && decode_field(raw, depth) == Some((field, value, raw.len())) && #[trigger] UnpairingRequest::apply_wire(
            x,
            field,
            value,
            raw,
            depth,
        ) is Some implies UnpairingRequest::apply_wire(x, field, value, raw, depth)->0.well_formed() by {
        lemma_unpairing_request_apply_well_formed(x, field, value, raw, depth);
    }
    lemma_merge_preserves::<UnpairingRequest>(m, s, |x: UnpairingRequestModel| x.well_formed(), depth);
}

/// A request to forget a paired device.
pub struct UnpairingRequest {
    device_id: String,
    reason: String,
    signature: Vec<u8>,
    unknown: UnpairingRequestUnknown,
}

impl View for UnpairingRequest {
    type V = UnpairingRequestModel;

    closed spec fn view(&self) -> UnpairingRequestModel {
        UnpairingRequestModel {
            device_id: self.device_id@,
            reason: self.reason@,
            signature: self.signature@,
            unknown: self.unknown@,
        }
    }
}

/// The unknown fields of a `UnpairingRequest`: whole fields it does not read, as they
/// came, in order.
struct UnpairingRequestUnknown {
    bytes: Vec<u8>,
}

impl View for UnpairingRequestUnknown {
    type V = Seq<u8>;

    closed spec fn view(&self) -> Seq<u8> {
        if unknown_run(self.bytes@, UnpairingRequestModel::keeps(), group_depth_limit()) {
            self.bytes@
        } else {
            Seq::empty()
        }
    }
}

impl UnpairingRequestUnknown {
    #[verifier::type_invariant]
    closed spec fn whole(self) -> bool {
        unknown_run(self.bytes@, UnpairingRequestModel::keeps(), group_depth_limit())
    }

    fn new() -> (r: Self)
        ensures
            r@ == Seq::<u8>::empty(),
    {
        proof {
            lemma_unknown_run_empty(UnpairingRequestModel::keeps(), group_depth_limit());
        }
        UnpairingRequestUnknown { bytes: Vec::new() }
    }

    /// Adds one whole field that the message does not read.
    fn push_field(&mut self, raw: &[u8], Ghost(field): Ghost<nat>, Ghost(value): Ghost<WireValue>)
        requires
            decode_field(raw@, group_depth_limit()) == Some((field, value, raw@.len())),
            UnpairingRequestModel::keeps_unknown(field, value),
        ensures
            final(self)@ == old(self)@ + raw@,
    {
        proof {
            use_type_invariant(&*self);
            lemma_unknown_run_field(raw@, field, value, UnpairingRequestModel::keeps(), group_depth_limit());
            lemma_unknown_run_concat(self.bytes@, raw@, UnpairingRequestModel::keeps(), group_depth_limit());
            lemma_unknown_run_empty(UnpairingRequestModel::keeps(), group_depth_limit());
        }
        let mut bytes = Vec::new();
        std::mem::swap(&mut bytes, &mut self.bytes);
        append_bytes(&mut bytes, raw);
        self.bytes = bytes;
    }

    /// Adds the unknown fields of another message of the same kind.
    fn append(&mut self, other: &Self)
        ensures
            final(self)@ == old(self)@ + other@,
    {
        proof {
            use_type_invariant(&*self);
            use_type_invariant(other);
            lemma_unknown_run_concat(self.bytes@, other.bytes@, UnpairingRequestModel::keeps(), group_depth_limit());
            lemma_unknown_run_empty(UnpairingRequestModel::keeps(), group_depth_limit());
        }
        let mut bytes = Vec::new();
        std::mem::swap(&mut bytes, &mut self.bytes);
        append_bytes(&mut bytes, other.bytes.as_slice());
        self.bytes = bytes;
    }

    fn as_slice(&self) -> (r: &[u8])
        ensures
            r@ == self@,
    {
        proof {
            use_type_invariant(self);
        }
        self.bytes.as_slice()
    }

    fn copy(&self) -> (r: Self)
        ensures
            r@ == self@,
    {
        proof {
            use_type_invariant(self);
        }
        UnpairingRequestUnknown { bytes: copy_bytes(self.bytes.as_slice()) }
    }
}

impl WireMessage for UnpairingRequest {
    open spec fn apply_wire(message: UnpairingRequestModel, field: nat, value: WireValue, raw: Seq<u8>, depth: nat) -> Option<UnpairingRequestModel> {
        message.apply(field, value, raw, depth)
    }

    open spec fn keeps_unknown(field: nat, value: WireValue) -> bool {
        UnpairingRequestModel::keeps_unknown(field, value)
    }

    open spec fn add_unknown(message: UnpairingRequestModel, raw: Seq<u8>) -> UnpairingRequestModel {
        UnpairingRequestModel { unknown: message.unknown + raw, ..message }
    }

    proof fn lemma_apply_unknown(message: UnpairingRequestModel, field: nat, value: WireValue, raw: Seq<u8>, depth: nat) {
        reveal(UnpairingRequestModel::apply);
    }

    proof fn lemma_add_unknown(message: UnpairingRequestModel, a: Seq<u8>, b: Seq<u8>) {
        assert(message.unknown + a + b =~= message.unknown + (a + b));
        assert(message.unknown + Seq::<u8>::empty() =~= message.unknown);
    }

    fn apply_field(
        &mut self,
        data: &[u8],
        field: u32,
        value: FieldValue,
        start: usize,
        end: usize,
        depth: u32,
    ) -> (ok: bool) {
        proof {
            reveal(UnpairingRequestModel::apply);
        }
        if field == 1 {
            if let FieldValue::Delimited(from, to) = value {
                match proto_string(&data[from..to]) {
                    Some(text) => self.device_id = text,
                    None => return false,
                }
                return true;
            }
        } else if field == 2 {
            if let FieldValue::Delimited(from, to) = value {
                match proto_string(&data[from..to]) {
                    Some(text) => self.reason = text,
                    None => return false,
                }
                return true;
            }
        } else if field == 3 {
            if let FieldValue::Delimited(from, to) = value {
                self.signature = copy_bytes(&data[from..to]);
                return true;
            }
        }
        proof {
            lemma_decode_field_deeper(data@.subrange(start as int, end as int), depth as nat, group_depth_limit());
        }
        self.unknown.push_field(&data[start..end], Ghost(field as nat), Ghost(value.wire(data@)));
        true
    }
}

/// The content of every `UnpairingRequest` is well formed.
pub proof fn lemma_unpairing_request_well_formed(m: UnpairingRequest)
    ensures
        m@.well_formed(),
{
    lemma_unknown_run_fields::<UnpairingRequest>(m.unknown.bytes@, UnpairingRequestModel::keeps(), group_depth_limit());
}

impl UnpairingRequest {
    /// A message with every field at its default.
    pub fn new() -> (r: Self)
        ensures
            r@ == UnpairingRequestModel::empty(),
    {
        let r = UnpairingRequest {
            device_id: String::new(),
            reason: String::new(),
            signature: Vec::new(),
            unknown: UnpairingRequestUnknown::new(),
        };
        r
    }

    /// Reads a message from its wire form.
    pub fn parse(data: &[u8]) -> (r: Result<Self, protobuf::ParseError>)
        ensures
            match merge_message::<UnpairingRequest>(UnpairingRequestModel::empty(), data@, group_depth_limit()) {
                Some(m) => r matches Ok(msg) && msg@ == m && m.well_formed(),
                None => r is Err,
            },
    {
        proof {
            if merge_message::<UnpairingRequest>(UnpairingRequestModel::empty(), data@, group_depth_limit()) is Some {
                lemma_unpairing_request_parse_well_formed(UnpairingRequestModel::empty(), data@, group_depth_limit());
            }
        }
        let mut msg = Self::new();
        if merge_bytes(&mut msg, data, 100) {
            Ok(msg)
        } else {
            Err(parse_error())
        }
    }

    /// Same as `parse`: the message has no required fields.
    pub fn parse_dont_enforce_required(data: &[u8]) -> (r: Result<Self, protobuf::ParseError>)
        ensures
            match merge_message::<UnpairingRequest>(UnpairingRequestModel::empty(), data@, group_depth_limit()) {
                Some(m) => r matches Ok(msg) && msg@ == m && m.well_formed(),
                None => r is Err,
            },
    {
        Self::parse(data)
    }

    /// Resets every field to its default.
    pub fn clear(&mut self)
        ensures
            final(self)@ == UnpairingRequestModel::empty(),
    {
        *self = UnpairingRequest::new();
    }

    /// Replaces the message by the one `data` encodes; on an error what the
    /// message then holds is unspecified.
    pub fn clear_and_parse(&mut self, data: &[u8]) -> (r: Result<(), protobuf::ParseError>)
        ensures
            match merge_message::<UnpairingRequest>(UnpairingRequestModel::empty(), data@, group_depth_limit()) {
                Some(m) => r is Ok && final(self)@ == m && m.well_formed(),
                None => r is Err,
            },
    {
        proof {
            if merge_message::<UnpairingRequest>(UnpairingRequestModel::empty(), data@, group_depth_limit()) is Some {
                lemma_unpairing_request_parse_well_formed(UnpairingRequestModel::empty(), data@, group_depth_limit());
            }
        }
        *self = UnpairingRequest::new();
        if merge_bytes(self, data, 100) {
            Ok(())
        } else {
            Err(parse_error())
        }
    }

    /// Same as `clear_and_parse`: the message has no required fields; on an error what the
    /// message then holds is unspecified.
    pub fn clear_and_parse_dont_enforce_required(&mut self, data: &[u8]) -> (r: Result<(), protobuf::ParseError>)
        ensures
            match merge_message::<UnpairingRequest>(UnpairingRequestModel::empty(), data@, group_depth_limit()) {
                Some(m) => r is Ok && final(self)@ == m && m.well_formed(),
                None => r is Err,
            },
    {
        self.clear_and_parse(data)
    }

    /// Makes this message a copy of `src`.
    pub fn copy_from(&mut self, src: UnpairingRequestView<'_>)
        ensures
            final(self)@ == src@,
    {
        *self = src.to_owned();
    }

    /// Moves the content of `src` here, leaving `src` empty.
    pub fn take_from(&mut self, src: &mut UnpairingRequest)
        ensures
            final(self)@ == old(src)@,
            final(src)@ == UnpairingRequestModel::empty(),
    {
        let mut taken = UnpairingRequest::new();
        std::mem::swap(&mut taken, src);
        *self = taken;
    }

    /// Merges `src` into this message (see `merge` on the model).
    pub fn merge_from(&mut self, src: UnpairingRequestView<'_>)
        ensures
            final(self)@ == old(self)@.merge(src@),
    {
        match src.msg {
            Some(other) => self.merge_fields_from(other),
            None => {
                proof {
                    lemma_unpairing_request_merge_empty(self@);
                }
            },
        }
    }

    fn merge_fields_from(&mut self, other: &UnpairingRequest)
        ensures
            final(self)@ == old(self)@.merge(other@),
    {
        proof {
            reveal(UnpairingRequestModel::merge);
        }
        let ghost start = self@;
        if !other.device_id.as_str().is_empty() {
            self.device_id = other.device_id.clone();
        }
        if !other.reason.as_str().is_empty() {
            self.reason = other.reason.clone();
        }
        if other.signature.len() > 0 {
            self.signature = copy_bytes(other.signature.as_slice());
        }
        self.unknown.append(&other.unknown);
        assert(self@ =~= start.merge(other@));
    }

    /// Appends the wire form to `buf`.
    pub fn write_to(&self, buf: &mut Vec<u8>)
        ensures
            final(buf)@ == old(buf)@ + self@.encode(),
    {
        let ghost start = buf@;
        let ghost c1 = bytes_field(1, encode_utf8(self@.device_id));
        let ghost c2 = bytes_field(2, encode_utf8(self@.reason));
        let ghost c3 = bytes_field(3, self@.signature);
        let ghost c4 = self@.unknown;
        write_bytes_field(buf, 1, self.device_id.as_str().as_bytes());
        let ghost mut written = c1;
        assert(buf@ == start + written);
        write_bytes_field(buf, 2, self.reason.as_str().as_bytes());
        proof {
            lemma_concat_associative(start, written, c2);
            written = written + c2;
        }
        assert(buf@ == start + written);
        write_bytes_field(buf, 3, self.signature.as_slice());
        proof {
            lemma_concat_associative(start, written, c3);
            written = written + c3;
        }
        assert(buf@ == start + written);
        append_bytes(buf, self.unknown.as_slice());
        proof {
            lemma_concat_associative(start, written, c4);
            written = written + c4;
        }
        assert(buf@ == start + written);
        assert(self@.encode() == written) by {
            assert(written == c1 + c2 + c3 + c4);
            reveal(UnpairingRequestModel::encode);
        }
    }

    /// The wire form, refused when it is longer than `i32::MAX` bytes. The
    /// message is well formed, so the wire form reads back as the message.
    pub fn serialize(&self) -> (r: Result<Vec<u8>, protobuf::SerializeError>)
        ensures
            match r {
                Ok(bytes) => bytes@ == self@.encode() && self@.encode().len() <= 0x7fff_ffff,
                Err(_) => self@.encode().len() > 0x7fff_ffff,
            },
            self@.well_formed(),
            self@.encode().len() <= size_limit() ==> merge_message::<UnpairingRequest>(
                UnpairingRequestModel::empty(),
                self@.encode(),
                group_depth_limit(),
            ) == Some(self@),
    {
        proof {
            lemma_unpairing_request_well_formed(*self);
            if self@.encode().len() <= size_limit() {
                lemma_unpairing_request_roundtrip(self@, group_depth_limit());
            }
        }
        let mut buf = Vec::new();
        self.write_to(&mut buf);
        assert(buf@ =~= self@.encode());
        if buf.len() > 0x7fff_ffff {
            return Err(serialize_error());
        }
        Ok(buf)
    }

    pub fn as_view(&self) -> (r: UnpairingRequestView<'_>)
        ensures
            r@ == self@,
    {
        UnpairingRequestView::new(self)
    }

    pub fn as_mut(&mut self) -> (r: UnpairingRequestMut<'_>)
        ensures
            r@ == old(self)@,
            *final(self) == *final(r.msg),
    {
        UnpairingRequestMut::new(self)
    }

    pub fn device_id(&self) -> (r: &str)
        ensures
            r@ == self@.device_id,
    {
        self.device_id.as_str()
    }

    pub fn set_device_id(&mut self, val: &str)
        ensures
            final(self)@ == (UnpairingRequestModel { device_id: val@, ..old(self)@ }),
    {
        self.device_id = val.to_owned();
    }

    pub fn reason(&self) -> (r: &str)
        ensures
            r@ == self@.reason,
    {
        self.reason.as_str()
    }

    pub fn set_reason(&mut self, val: &str)
        ensures
            final(self)@ == (UnpairingRequestModel { reason: val@, ..old(self)@ }),
    {
        self.reason = val.to_owned();
    }

    pub fn signature(&self) -> (r: &[u8])
        ensures
            r@ == self@.signature,
    {
        self.signature.as_slice()
    }

    pub fn set_signature(&mut self, val: &[u8])
        ensures
            final(self)@ == (UnpairingRequestModel { signature: val@, ..old(self)@ }),
    {
        self.signature = copy_bytes(val);
    }
}

impl Clone for UnpairingRequest {
    fn clone(&self) -> (r: Self)
        ensures
            r@ == self@,
    {
        let r = UnpairingRequest {
            device_id: self.device_id.clone(),
            reason: self.reason.clone(),
            signature: copy_bytes(self.signature.as_slice()),
            unknown: self.unknown.copy(),
        };
        r
    }
}

impl Default for UnpairingRequest {
    fn default() -> (r: Self)
        ensures
            r@ == UnpairingRequestModel::empty(),
    {
        Self::new()
    }
}

/// Read access to a `UnpairingRequest`; the default view reads as the empty message.
#[derive(Clone, Copy)]
pub struct UnpairingRequestView<'msg> {
    msg: Option<&'msg UnpairingRequest>,
}

impl<'msg> View for UnpairingRequestView<'msg> {
    type V = UnpairingRequestModel;

    closed spec fn view(&self) -> UnpairingRequestModel {
        match self.msg {
            Some(m) => m@,
            None => UnpairingRequestModel::empty(),
        }
    }
}

impl<'msg> UnpairingRequestView<'msg> {
    pub fn new(msg: &'msg UnpairingRequest) -> (r: Self)
        ensures
            r@ == msg@,
    {
        UnpairingRequestView { msg: Some(msg) }
    }

    /// An owned copy of the message.
    pub fn to_owned(&self) -> (r: UnpairingRequest)
        ensures
            r@ == self@,
    {
        match self.msg {
            Some(m) => m.clone(),
            None => UnpairingRequest::new(),
        }
    }

    /// The wire form, refused when it is longer than `i32::MAX` bytes. The
    /// message is well formed, so the wire form reads back as the message.
    pub fn serialize(&self) -> (r: Result<Vec<u8>, protobuf::SerializeError>)
        ensures
            match r {
                Ok(bytes) => bytes@ == self@.encode() && self@.encode().len() <= 0x7fff_ffff,
                Err(_) => self@.encode().len() > 0x7fff_ffff,
            },
            self@.well_formed(),
            self@.encode().len() <= size_limit() ==> merge_message::<UnpairingRequest>(
                UnpairingRequestModel::empty(),
                self@.encode(),
                group_depth_limit(),
            ) == Some(self@),
    {
        match self.msg {
            Some(m) => m.serialize(),
            None => UnpairingRequest::new().serialize(),
        }
    }

    pub fn device_id(self) -> (r: &'msg str)
        ensures
            r@ == self@.device_id,
    {
        match self.msg {
            Some(m) => m.device_id.as_str(),
            None => {
                proof {
                    reveal_strlit("");
                }
                ""
            },
        }
    }

    pub fn reason(self) -> (r: &'msg str)
        ensures
            r@ == self@.reason,
    {
        match self.msg {
            Some(m) => m.reason.as_str(),
            None => {
                proof {
                    reveal_strlit("");
                }
                ""
            },
        }
    }

    pub fn signature(self) -> (r: &'msg [u8])
        ensures
            r@ == self@.signature,
    {
        match self.msg {
            Some(m) => m.signature.as_slice(),
            None => {
                &[]
            },
        }
    }
}

impl<'msg> Default for UnpairingRequestView<'msg> {
    fn default() -> (r: Self)
        ensures
            r@ == UnpairingRequestModel::empty(),
    {
        UnpairingRequestView { msg: None }
    }
}

/// Write access to a `UnpairingRequest` held elsewhere.
pub struct UnpairingRequestMut<'msg> {
    /// The message written through this handle.
    pub msg: &'msg mut UnpairingRequest,
}

impl<'msg> View for UnpairingRequestMut<'msg> {
    type V = UnpairingRequestModel;

    open spec fn view(&self) -> UnpairingRequestModel {
        (*self.msg)@
    }
}

impl<'msg> UnpairingRequestMut<'msg> {
    pub fn new(msg: &'msg mut UnpairingRequest) -> (r: Self)
        ensures
            r@ == old(msg)@,
            *final(msg) == *final(r.msg),
    {
        UnpairingRequestMut { msg }
    }

    /// An owned copy of the message.
    pub fn to_owned(&self) -> (r: UnpairingRequest)
        ensures
            r@ == self@,
    {
        self.msg.clone()
    }

    pub fn as_view(&self) -> (r: UnpairingRequestView<'_>)
        ensures
            r@ == self@,
    {
        UnpairingRequestView::new(self.msg)
    }

    /// The wire form, refused when it is longer than `i32::MAX` bytes. The
    /// message is well formed, so the wire form reads back as the message.
    pub fn serialize(&self) -> (r: Result<Vec<u8>, protobuf::SerializeError>)
        ensures
            match r {
                Ok(bytes) => bytes@ == self@.encode() && self@.encode().len() <= 0x7fff_ffff,
                Err(_) => self@.encode().len() > 0x7fff_ffff,
            },
            self@.well_formed(),
            self@.encode().len() <= size_limit() ==> merge_message::<UnpairingRequest>(
                UnpairingRequestModel::empty(),
                self@.encode(),
                group_depth_limit(),
            ) == Some(self@),
    {
        self.msg.serialize()
    }

    /// Resets every field to its default.
    pub fn clear(&mut self)
        ensures
            final(self)@ == UnpairingRequestModel::empty(),
            *final(final(self).msg) == *final(old(self).msg),
    {
        self.msg.clear();
    }

    /// Replaces the message by the one `data` encodes.
    pub fn clear_and_parse(&mut self, data: &[u8]) -> (r: Result<(), protobuf::ParseError>)
        ensures
            match merge_message::<UnpairingRequest>(UnpairingRequestModel::empty(), data@, group_depth_limit()) {
                Some(m) => r is Ok && final(self)@ == m && m.well_formed(),
                None => r is Err,
            },
            *final(final(self).msg) == *final(old(self).msg),
    {
        self.msg.clear_and_parse(data)
    }

    /// Replaces the message by the one `data` encodes.
    pub fn clear_and_parse_dont_enforce_required(&mut self, data: &[u8]) -> (r: Result<(), protobuf::ParseError>)
        ensures
            match merge_message::<UnpairingRequest>(UnpairingRequestModel::empty(), data@, group_depth_limit()) {
                Some(m) => r is Ok && final(self)@ == m && m.well_formed(),
                None => r is Err,
            },
            *final(final(self).msg) == *final(old(self).msg),
    {
        self.msg.clear_and_parse_dont_enforce_required(data)
    }

    /// Makes the message a copy of `src`.
    pub fn copy_from(&mut self, src: UnpairingRequestView<'_>)
        ensures
            final(self)@ == src@,
            *final(final(self).msg) == *final(old(self).msg),
    {
        self.msg.copy_from(src);
    }

    /// Merges `src` into the message.
    pub fn merge_from(&mut self, src: UnpairingRequestView<'_>)
        ensures
            final(self)@ == old(self)@.merge(src@),
            *final(final(self).msg) == *final(old(self).msg),
    {
        self.msg.merge_from(src);
    }

    pub fn device_id(&self) -> (r: &str)
        ensures
            r@ == self@.device_id,
    {
        self.msg.device_id()
    }

    pub fn set_device_id(&mut self, val: &str)
        ensures
            final(self)@ == (UnpairingRequestModel { device_id: val@, ..old(self)@ }),
            *final(final(self).msg) == *final(old(self).msg),
    {
        self.msg.set_device_id(val);
    }

    pub fn reason(&self) -> (r: &str)
        ensures
            r@ == self@.reason,
    {
        self.msg.reason()
    }

    pub fn set_reason(&mut self, val: &str)
        ensures
            final(self)@ == (UnpairingRequestModel { reason: val@, ..old(self)@ }),
            *final(final(self).msg) == *final(old(self).msg),
    {
        self.msg.set_reason(val);
    }

    pub fn signature(&self) -> (r: &[u8])
        ensures
            r@ == self@.signature,
    {
        self.msg.signature()
    }

    pub fn set_signature(&mut self, val: &[u8])
        ensures
            final(self)@ == (UnpairingRequestModel { signature: val@, ..old(self)@ }),
            *final(final(self).msg) == *final(old(self).msg),
    {
        self.msg.set_signature(val);
    }
}

} // verus!
