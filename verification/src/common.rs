//! Messages both sides of a connection use: errors, heartbeats, protocol
//! versions and capability negotiation (package `nearclip.common`).
use vstd::prelude::*;
use vstd::seq_lib::lemma_concat_associative;
use vstd::std_specs::convert::FromSpecImpl;
use vstd::utf8::{decode_utf8, encode_utf8, encode_utf8_decode_utf8, encode_utf8_valid_utf8, valid_utf8};
use crate::proto::{parse_error, proto_string, serialize_error};
use crate::text::{decimal, from_text, qualified_text};
use crate::wire::{
    append_bytes, bytes_field, clone_strings, copy_bytes, decode_field, delimited, from_i32,
    group_depth_limit, i32_wire, lemma_decode_field_deeper, lemma_i32_wire_roundtrip,
    lemma_merge_bytes_field, lemma_merge_concat, lemma_merge_delimited, lemma_merge_nothing,
    lemma_merge_preserves, lemma_merge_unknown, lemma_merge_varint_field, lemma_unknown_field,
    lemma_unknown_fields_concat, lemma_unknown_run_concat, lemma_unknown_run_empty,
    lemma_unknown_run_field, lemma_unknown_run_fields, merge_bytes, merge_message, optional_message,
    repeated_strings, size_limit, to_i32, to_u32, unknown_fields, unknown_run, varint_field,
    wire_i32, wire_u32, write_bytes_field, write_delimited, write_repeated_strings,
    write_varint_field, FieldValue, WireMessage, WireValue,
};

verus! {

/// Why a request failed. An open enumeration: a value this version does not
/// name is kept as it is.
#[derive(Clone, Copy, PartialEq, Eq, Structural, Hash, PartialOrd, Ord, Debug)]
pub struct ErrorCode(pub i32);

impl View for ErrorCode {
    type V = i32;

    open spec fn view(&self) -> i32 {
        self.0
    }
}

#[allow(non_snake_case)]
impl ErrorCode {
    pub fn ErrorNone() -> (r: ErrorCode)
        ensures
            r@ == 0,
            Self::known_name(r@) == Some("ErrorNone"@),
    {
        ErrorCode(0)
    }

    pub fn ErrorInvalidMessage() -> (r: ErrorCode)
        ensures
            r@ == 1,
            Self::known_name(r@) == Some("ErrorInvalidMessage"@),
    {
        ErrorCode(1)
    }

    pub fn ErrorInvalidSignature() -> (r: ErrorCode)
        ensures
            r@ == 2,
            Self::known_name(r@) == Some("ErrorInvalidSignature"@),
    {
        ErrorCode(2)
    }

    pub fn ErrorExpiredMessage() -> (r: ErrorCode)
        ensures
            r@ == 3,
            Self::known_name(r@) == Some("ErrorExpiredMessage"@),
    {
        ErrorCode(3)
    }

    pub fn ErrorUnsupportedVersion() -> (r: ErrorCode)
        ensures
            r@ == 4,
            Self::known_name(r@) == Some("ErrorUnsupportedVersion"@),
    {
        ErrorCode(4)
    }

    pub fn ErrorDeviceNotFound() -> (r: ErrorCode)
        ensures
            r@ == 5,
            Self::known_name(r@) == Some("ErrorDeviceNotFound"@),
    {
        ErrorCode(5)
    }

    pub fn ErrorPairingFailed() -> (r: ErrorCode)
        ensures
            r@ == 6,
            Self::known_name(r@) == Some("ErrorPairingFailed"@),
    {
        ErrorCode(6)
    }

    pub fn ErrorEncryptionFailed() -> (r: ErrorCode)
        ensures
            r@ == 7,
            Self::known_name(r@) == Some("ErrorEncryptionFailed"@),
    {
        ErrorCode(7)
    }

    pub fn ErrorNetworkError() -> (r: ErrorCode)
        ensures
            r@ == 8,
            Self::known_name(r@) == Some("ErrorNetworkError"@),
    {
        ErrorCode(8)
    }

    pub fn ErrorTimeout() -> (r: ErrorCode)
        ensures
            r@ == 9,
            Self::known_name(r@) == Some("ErrorTimeout"@),
    {
        ErrorCode(9)
    }

    pub fn ErrorQuotaExceeded() -> (r: ErrorCode)
        ensures
            r@ == 10,
            Self::known_name(r@) == Some("ErrorQuotaExceeded"@),
    {
        ErrorCode(10)
    }

    pub fn ErrorInternalError() -> (r: ErrorCode)
        ensures
            r@ == 11,
            Self::known_name(r@) == Some("ErrorInternalError"@),
    {
        ErrorCode(11)
    }

    /// The name of each value this version knows.
    pub open spec fn known_name(value: i32) -> Option<Seq<char>> {
        if value == 0 {
            Some("ErrorNone"@)
        } else if value == 1 {
            Some("ErrorInvalidMessage"@)
        } else if value == 2 {
            Some("ErrorInvalidSignature"@)
        } else if value == 3 {
            Some("ErrorExpiredMessage"@)
        } else if value == 4 {
            Some("ErrorUnsupportedVersion"@)
        } else if value == 5 {
            Some("ErrorDeviceNotFound"@)
        } else if value == 6 {
            Some("ErrorPairingFailed"@)
        } else if value == 7 {
            Some("ErrorEncryptionFailed"@)
        } else if value == 8 {
            Some("ErrorNetworkError"@)
        } else if value == 9 {
            Some("ErrorTimeout"@)
        } else if value == 10 {
            Some("ErrorQuotaExceeded"@)
        } else if value == 11 {
            Some("ErrorInternalError"@)
        } else {
            None
        }
    }

    /// Whether this version names `value`.
    pub fn is_known(value: i32) -> (r: bool)
        ensures
            r == (Self::known_name(value) is Some),
    {
        0 <= value && value <= 11
    }

    /// The name of the value, when this version knows it.
    pub fn constant_name(&self) -> (r: Option<&'static str>)
        ensures
            match Self::known_name(self@) {
                Some(n) => r matches Some(s) && s@ == n,
                None => r is None,
            },
    {
        match self.0 {
            0 => Some("ErrorNone"),
            1 => Some("ErrorInvalidMessage"),
            2 => Some("ErrorInvalidSignature"),
            3 => Some("ErrorExpiredMessage"),
            4 => Some("ErrorUnsupportedVersion"),
            5 => Some("ErrorDeviceNotFound"),
            6 => Some("ErrorPairingFailed"),
            7 => Some("ErrorEncryptionFailed"),
            8 => Some("ErrorNetworkError"),
            9 => Some("ErrorTimeout"),
            10 => Some("ErrorQuotaExceeded"),
            11 => Some("ErrorInternalError"),
            _ => None,
        }
    }

    /// How the value is shown: `ErrorCode::` and its name when this version
    /// knows it, else `ErrorCode::from(` with its number and `)`.
    pub fn debug_text(&self) -> (r: String)
        ensures
            r@ == match Self::known_name(self@) {
                Some(n) => "ErrorCode"@ + "::"@ + n,
                None => "ErrorCode"@ + "::from("@ + decimal(self@ as int) + ")"@,
            },
    {
        match self.constant_name() {
            Some(n) => qualified_text("ErrorCode", n),
            None => from_text("ErrorCode", self.0),
        }
    }
}

/// The names of `ErrorCode`: the value of each constant is named after that
/// constant, and a value outside 0 to 11 has no name.
pub proof fn lemma_error_code_names()
    ensures
        ErrorCode::known_name(0) == Some("ErrorNone"@),
        ErrorCode::known_name(1) == Some("ErrorInvalidMessage"@),
        ErrorCode::known_name(2) == Some("ErrorInvalidSignature"@),
        ErrorCode::known_name(3) == Some("ErrorExpiredMessage"@),
        ErrorCode::known_name(4) == Some("ErrorUnsupportedVersion"@),
        ErrorCode::known_name(5) == Some("ErrorDeviceNotFound"@),
        ErrorCode::known_name(6) == Some("ErrorPairingFailed"@),
        ErrorCode::known_name(7) == Some("ErrorEncryptionFailed"@),
        ErrorCode::known_name(8) == Some("ErrorNetworkError"@),
        ErrorCode::known_name(9) == Some("ErrorTimeout"@),
        ErrorCode::known_name(10) == Some("ErrorQuotaExceeded"@),
        ErrorCode::known_name(11) == Some("ErrorInternalError"@),
        forall|v: i32| #[trigger] ErrorCode::known_name(v) is Some <==> 0 <= v <= 11,
{
}

impl From<i32> for ErrorCode {
    fn from(val: i32) -> (r: ErrorCode)
        ensures
            r@ == val,
    {
        ErrorCode(val)
    }
}

impl FromSpecImpl<i32> for ErrorCode {
    open spec fn obeys_from_spec() -> bool {
        true
    }

    open spec fn from_spec(v: i32) -> ErrorCode {
        ErrorCode(v)
    }
}

impl From<ErrorCode> for i32 {
    fn from(val: ErrorCode) -> (r: i32)
        ensures
            r == val@,
    {
        val.0
    }
}

impl FromSpecImpl<ErrorCode> for i32 {
    open spec fn obeys_from_spec() -> bool {
        true
    }

    open spec fn from_spec(v: ErrorCode) -> i32 {
        v.0
    }
}

impl Default for ErrorCode {
    fn default() -> (r: Self)
        ensures
            r@ == 0,
    {
        ErrorCode(0)
    }
}

/// The content of a `ErrorMessage`.
pub struct ErrorMessageModel {
    pub code: ErrorCode,
    pub message: Seq<char>,
    pub details: Seq<char>,
    pub timestamp: u64,
    /// The fields read but not understood, as they came, in order.
    pub unknown: Seq<u8>,
}

impl ErrorMessageModel {
    /// The message with every field at its default.
    pub open spec fn empty() -> Self {
        ErrorMessageModel {
            code: ErrorCode(0),
            message: Seq::empty(),
            details: Seq::empty(),
            timestamp: 0,
            unknown: Seq::empty(),
        }
    }

    /// The wire form: fields in number order, defaults and absent
    /// sub-messages left out, then the unknown fields as they came.
    #[verifier::opaque]
    pub open spec fn encode(self) -> Seq<u8> {
        varint_field(1, i32_wire(self.code.0))
            + bytes_field(2, encode_utf8(self.message))
            + bytes_field(3, encode_utf8(self.details))
            + varint_field(4, self.timestamp)
            + self.unknown
    }

    /// Whether a field is kept, as it came, among the unknown fields: its
    /// number is not one of this message's, or it comes with another wire
    /// type than its field is written with.
    pub open spec fn keeps_unknown(field: nat, value: WireValue) -> bool {
        if field == 1 {
            !(value is Varint)
        } else if field == 2 {
            !(value is Delimited)
        } else if field == 3 {
            !(value is Delimited)
        } else if field == 4 {
            !(value is Varint)
        } else {
            true
        }
    }

    /// `keeps_unknown` as a function.
    pub open spec fn keeps() -> spec_fn(nat, WireValue) -> bool {
        |field: nat, value: WireValue| ErrorMessageModel::keeps_unknown(field, value)
    }

    /// How one field of the wire form changes the message; `raw` is the
    /// field as it came. `None` when the field's content is malformed.
    #[verifier::opaque]
    pub open spec fn apply(self, field: nat, value: WireValue, raw: Seq<u8>, depth: nat) -> Option<Self> {
        if Self::keeps_unknown(field, value) {
            Some(ErrorMessageModel { unknown: self.unknown + raw, ..self })
        } else if field == 1 {
            match value {
                WireValue::Varint(v) => Some(ErrorMessageModel { code: ErrorCode(wire_i32(v)), ..self }),
                _ => Some(self),
            }
        } else if field == 2 {
            match value {
                WireValue::Delimited(b) => if valid_utf8(b) {
                    Some(ErrorMessageModel { message: decode_utf8(b), ..self })
                } else {
                    None
                },
                _ => Some(self),
            }
        } else if field == 3 {
            match value {
                WireValue::Delimited(b) => if valid_utf8(b) {
                    Some(ErrorMessageModel { details: decode_utf8(b), ..self })
                } else {
                    None
                },
                _ => Some(self),
            }
        } else if field == 4 {
            match value {
                WireValue::Varint(v) => Some(ErrorMessageModel { timestamp: v, ..self }),
                _ => Some(self),
            }
        } else {
            Some(self)
        }
    }

    /// `other` merged into this message, as protobuf merges: a scalar, string
    /// or bytes field set in `other` replaces the one here, repeated fields
    /// are appended, sub-messages are merged, map entries inserted and
    /// unknown fields appended.
    #[verifier::opaque]
    pub open spec fn merge(self, other: Self) -> Self {
        ErrorMessageModel {
            code: if other.code.0 != 0 { other.code } else { self.code },
            message: if other.message.len() > 0 { other.message } else { self.message },
            details: if other.details.len() > 0 { other.details } else { self.details },
            timestamp: if other.timestamp != 0 { other.timestamp } else { self.timestamp },
            unknown: self.unknown + other.unknown,
        }
    }

    /// What writing the message out and reading it back relies on: the
    /// unknown fields are whole fields this message does not read, and
    /// the same holds of every sub-message.
    pub open spec fn well_formed(self) -> bool {
        &&& unknown_fields::<ErrorMessage>(self.unknown, group_depth_limit())
    }

    /// What reading the wire form back with `depth` levels of nesting left
    /// relies on: the message is well formed, its unknown fields read as
    /// whole fields with `depth` levels, and each sub-message reads back
    /// with one level less.
    pub open spec fn well_formed_at(self, depth: nat) -> bool {
        &&& self.well_formed()
        &&& unknown_fields::<ErrorMessage>(self.unknown, depth)
    }
}

/// Reading the `code` field as `b` writes it merges it into `m`.
proof fn lemma_error_message_read_code(m: ErrorMessageModel, b: ErrorMessageModel, rest: Seq<u8>, depth: nat)
    requires
        varint_field(1, i32_wire(b.code.0)).len() <= size_limit(),
    ensures
        merge_message::<ErrorMessage>(m, varint_field(1, i32_wire(b.code.0)) + rest, depth) == merge_message::<ErrorMessage>(
            ErrorMessageModel { code: if b.code.0 != 0 { b.code } else { m.code }, ..m },
            rest,
            depth,
        ),
{
    let next = ErrorMessageModel { code: if b.code.0 != 0 { b.code } else { m.code }, ..m };
    reveal(ErrorMessageModel::apply);
    lemma_i32_wire_roundtrip(b.code.0);
    lemma_merge_varint_field::<ErrorMessage>(m, 1, i32_wire(b.code.0), rest, next, depth);
}

/// Reading the `message` field as `b` writes it merges it into `m`.
proof fn lemma_error_message_read_message(m: ErrorMessageModel, b: ErrorMessageModel, rest: Seq<u8>, depth: nat)
    requires
        bytes_field(2, encode_utf8(b.message)).len() <= size_limit(),
    ensures
        merge_message::<ErrorMessage>(m, bytes_field(2, encode_utf8(b.message)) + rest, depth) == merge_message::<ErrorMessage>(
            ErrorMessageModel { message: if b.message.len() > 0 { b.message } else { m.message }, ..m },
            rest,
            depth,
        ),
{
    let next = ErrorMessageModel { message: if b.message.len() > 0 { b.message } else { m.message }, ..m };
    reveal(ErrorMessageModel::apply);
    encode_utf8_decode_utf8(b.message);
    encode_utf8_valid_utf8(b.message);
    lemma_merge_bytes_field::<ErrorMessage>(m, 2, encode_utf8(b.message), rest, next, depth);
}

/// Reading the `details` field as `b` writes it merges it into `m`.
proof fn lemma_error_message_read_details(m: ErrorMessageModel, b: ErrorMessageModel, rest: Seq<u8>, depth: nat)
    requires
        bytes_field(3, encode_utf8(b.details)).len() <= size_limit(),
    ensures
        merge_message::<ErrorMessage>(m, bytes_field(3, encode_utf8(b.details)) + rest, depth) == merge_message::<ErrorMessage>(
            ErrorMessageModel { details: if b.details.len() > 0 { b.details } else { m.details }, ..m },
            rest,
            depth,
        ),
{
    let next = ErrorMessageModel { details: if b.details.len() > 0 { b.details } else { m.details }, ..m };
    reveal(ErrorMessageModel::apply);
    encode_utf8_decode_utf8(b.details);
    encode_utf8_valid_utf8(b.details);
    lemma_merge_bytes_field::<ErrorMessage>(m, 3, encode_utf8(b.details), rest, next, depth);
}

/// Reading the `timestamp` field as `b` writes it merges it into `m`.
proof fn lemma_error_message_read_timestamp(m: ErrorMessageModel, b: ErrorMessageModel, rest: Seq<u8>, depth: nat)
    requires
        varint_field(4, b.timestamp).len() <= size_limit(),
    ensures
        merge_message::<ErrorMessage>(m, varint_field(4, b.timestamp) + rest, depth) == merge_message::<ErrorMessage>(
            ErrorMessageModel { timestamp: if b.timestamp != 0 { b.timestamp } else { m.timestamp }, ..m },
            rest,
            depth,
        ),
{
    let next = ErrorMessageModel { timestamp: if b.timestamp != 0 { b.timestamp } else { m.timestamp }, ..m };
    reveal(ErrorMessageModel::apply);
    lemma_merge_varint_field::<ErrorMessage>(m, 4, b.timestamp, rest, next, depth);
}

/// Reading the unknown fields as `b` writes them adds them to those of `m`.
proof fn lemma_error_message_read_unknown(m: ErrorMessageModel, b: ErrorMessageModel, rest: Seq<u8>, depth: nat)
    requires
        b.unknown.len() <= size_limit(),
        b.well_formed_at(depth),
    ensures
        merge_message::<ErrorMessage>(m, b.unknown + rest, depth) == merge_message::<ErrorMessage>(
            ErrorMessageModel { unknown: m.unknown + b.unknown, ..m },
            rest,
            depth,
        ),
{
    lemma_merge_unknown::<ErrorMessage>(m, b.unknown, rest, depth);
}

/// Reading the wire form of `b` into `a`, with `depth` levels of nesting left,
/// gives `b` merged into `a`.
pub proof fn lemma_error_message_merge_wire(a: ErrorMessageModel, b: ErrorMessageModel, depth: nat)
    requires
        b.encode().len() <= size_limit(),
        b.well_formed_at(depth),
    ensures
        merge_message::<ErrorMessage>(a, b.encode(), depth) == Some(a.merge(b)),
{
    let c1 = varint_field(1, i32_wire(b.code.0));
    let c2 = bytes_field(2, encode_utf8(b.message));
    let c3 = bytes_field(3, encode_utf8(b.details));
    let c4 = varint_field(4, b.timestamp);
    let c5 = b.unknown;
    assert(b.encode() == c1 + c2 + c3 + c4 + c5) by {
        reveal(ErrorMessageModel::encode);
    }
    let m0 = a;
    let m1 = ErrorMessageModel { code: if b.code.0 != 0 { b.code } else { m0.code }, ..m0 };
    lemma_error_message_read_code(m0, b, Seq::empty(), depth);
    assert(c1 + Seq::empty() =~= c1);
    lemma_merge_nothing::<ErrorMessage>(m1, depth);
    let m2 = ErrorMessageModel { message: if b.message.len() > 0 { b.message } else { m1.message }, ..m1 };
    lemma_error_message_read_message(m1, b, Seq::empty(), depth);
    assert(c2 + Seq::empty() =~= c2);
    lemma_merge_nothing::<ErrorMessage>(m2, depth);
    lemma_merge_concat::<ErrorMessage>(a, c1, c2, depth);
    let m3 = ErrorMessageModel { details: if b.details.len() > 0 { b.details } else { m2.details }, ..m2 };
    lemma_error_message_read_details(m2, b, Seq::empty(), depth);
    assert(c3 + Seq::empty() =~= c3);
    lemma_merge_nothing::<ErrorMessage>(m3, depth);
    lemma_merge_concat::<ErrorMessage>(a, c1 + c2, c3, depth);
    let m4 = ErrorMessageModel { timestamp: if b.timestamp != 0 { b.timestamp } else { m3.timestamp }, ..m3 };
    lemma_error_message_read_timestamp(m3, b, Seq::empty(), depth);
    assert(c4 + Seq::empty() =~= c4);
    lemma_merge_nothing::<ErrorMessage>(m4, depth);
    lemma_merge_concat::<ErrorMessage>(a, c1 + c2 + c3, c4, depth);
    let m5 = ErrorMessageModel { unknown: m4.unknown + b.unknown, ..m4 };
    lemma_error_message_read_unknown(m4, b, Seq::empty(), depth);
    assert(c5 + Seq::empty() =~= c5);
    lemma_merge_nothing::<ErrorMessage>(m5, depth);
    lemma_merge_concat::<ErrorMessage>(a, c1 + c2 + c3 + c4, c5, depth);
    assert(m5 == a.merge(b)) by {
        reveal(ErrorMessageModel::merge);
    }
}

/// Merging the empty message changes nothing.
pub proof fn lemma_error_message_merge_empty(a: ErrorMessageModel)
    ensures
        a.merge(ErrorMessageModel::empty()) == a,
{
    reveal(ErrorMessageModel::merge);
    assert(a.unknown + Seq::empty() =~= a.unknown);
    assert(a.merge(ErrorMessageModel::empty()) =~= a);
}

/// Merging a message into the empty one gives that message.
pub proof fn lemma_error_message_empty_merge(b: ErrorMessageModel)
    ensures
        ErrorMessageModel::empty().merge(b) == b,
{
    reveal(ErrorMessageModel::merge);
    assert(b.message.len() == 0 ==> b.message =~= Seq::<char>::empty());
    assert(b.details.len() == 0 ==> b.details =~= Seq::<char>::empty());
    assert(Seq::empty() + b.unknown =~= b.unknown);
    assert(ErrorMessageModel::empty().merge(b) =~= b);
}

/// Writing a message out and reading it back, with `depth` levels of
/// nesting left (`group_depth_limit()` for a message read on its own),
/// gives the same message.
pub proof fn lemma_error_message_roundtrip(m: ErrorMessageModel, depth: nat)
    requires
        m.encode().len() <= size_limit(),
        m.well_formed_at(depth),
    ensures
        merge_message::<ErrorMessage>(ErrorMessageModel::empty(), m.encode(), depth) == Some(m),
{
    lemma_error_message_merge_wire(ErrorMessageModel::empty(), m, depth);
    lemma_error_message_empty_merge(m);
}

/// Reading two encoded messages written one after the other, with `depth`
/// levels of nesting left, gives the second merged into the first.
pub proof fn lemma_error_message_concat(a: ErrorMessageModel, b: ErrorMessageModel, depth: nat)
    requires
        a.encode().len() <= size_limit(),
        b.encode().len() <= size_limit(),
        a.well_formed_at(depth),
        b.well_formed_at(depth),
    ensures
        merge_message::<ErrorMessage>(ErrorMessageModel::empty(), a.encode() + b.encode(), depth) == Some(a.merge(b)),
{
    lemma_error_message_roundtrip(a, depth);
    lemma_merge_concat::<ErrorMessage>(ErrorMessageModel::empty(), a.encode(), b.encode(), depth);
    lemma_error_message_merge_wire(a, b, depth);
}

/// Merging two well-formed messages gives a well-formed message.
pub proof fn lemma_error_message_merge_well_formed(a: ErrorMessageModel, b: ErrorMessageModel)
    requires
        a.well_formed(),
        b.well_formed(),
    ensures
        a.merge(b).well_formed(),
{
    reveal(ErrorMessageModel::merge);
    lemma_unknown_fields_concat::<ErrorMessage>(a.unknown, b.unknown, group_depth_limit());
}

/// Reading one whole field into a well-formed message keeps it well formed.
proof fn lemma_error_message_apply_well_formed(m: ErrorMessageModel, field: nat, value: WireValue, raw: Seq<u8>, depth: nat)
    requires
        m.well_formed(),
        depth <= group_depth_limit(),
        decode_field(raw, depth) == Some((field, value, raw.len())),
        m.apply(field, value, raw, depth) is Some,
    ensures
        m.apply(field, value, raw, depth)->0.well_formed(),
{
    reveal(ErrorMessageModel::apply);
    if ErrorMessageModel::keeps_unknown(field, value) {
        lemma_decode_field_deeper(raw, depth, group_depth_limit());
        lemma_unknown_field::<ErrorMessage>(raw, field, value, group_depth_limit());
        lemma_unknown_fields_concat::<ErrorMessage>(m.unknown, raw, group_depth_limit());
    }
}

/// Reading whole fields into a well-formed message, with at most
/// `group_depth_limit()` levels of nesting left, keeps it well formed.
pub proof fn lemma_error_message_parse_well_formed(m: ErrorMessageModel, s: Seq<u8>, depth: nat)
    requires
        m.well_formed(),
        depth <= group_depth_limit(),
        merge_message::<ErrorMessage>(m, s, depth) is Some,
    ensures
        merge_message::<ErrorMessage>(m, s, depth)->0.well_formed(),
{
    assert forall|x: ErrorMessageModel, field: nat, value: WireValue, raw: Seq<u8>|
        x.well_formed() && decode_field(raw, depth) == Some((field, value, raw.len())) && #[trigger] ErrorMessage::apply_wire(
            x,
            field,
            value,
            raw,
            depth,
        ) is Some implies ErrorMessage::apply_wire(x, field, value, raw, depth)->0.well_formed() by {
        lemma_error_message_apply_well_formed(x, field, value, raw, depth);
    }
    lemma_merge_preserves::<ErrorMessage>(m, s, |x: ErrorMessageModel| x.well_formed(), depth);
}

/// An error report: a code, a message, details and when it happened.
pub struct ErrorMessage {
    code: ErrorCode,
    message: String,
    details: String,
    timestamp: u64,
    unknown: ErrorMessageUnknown,
}

impl View for ErrorMessage {
    type V = ErrorMessageModel;

    closed spec fn view(&self) -> ErrorMessageModel {
        ErrorMessageModel {
            code: self.code,
            message: self.message@,
            details: self.details@,
            timestamp: self.timestamp,
            unknown: self.unknown@,
        }
    }
}

/// The unknown fields of a `ErrorMessage`: whole fields it does not read, as they
/// came, in order.
struct ErrorMessageUnknown {
    bytes: Vec<u8>,
}

impl View for ErrorMessageUnknown {
    type V = Seq<u8>;

    closed spec fn view(&self) -> Seq<u8> {
        if unknown_run(self.bytes@, ErrorMessageModel::keeps(), group_depth_limit()) {
            self.bytes@
        } else {
            Seq::empty()
        }
    }
}

impl ErrorMessageUnknown {
    #[verifier::type_invariant]
    closed spec fn whole(self) -> bool {
        unknown_run(self.bytes@, ErrorMessageModel::keeps(), group_depth_limit())
    }

    fn new() -> (r: Self)
        ensures
            r@ == Seq::<u8>::empty(),
    {
        proof {
            lemma_unknown_run_empty(ErrorMessageModel::keeps(), group_depth_limit());
        }
        ErrorMessageUnknown { bytes: Vec::new() }
    }

    /// Adds one whole field that the message does not read.
    fn push_field(&mut self, raw: &[u8], Ghost(field): Ghost<nat>, Ghost(value): Ghost<WireValue>)
        requires
            decode_field(raw@, group_depth_limit()) == Some((field, value, raw@.len())),
            ErrorMessageModel::keeps_unknown(field, value),
        ensures
            final(self)@ == old(self)@ + raw@,
    {
        proof {
            use_type_invariant(&*self);
            lemma_unknown_run_field(raw@, field, value, ErrorMessageModel::keeps(), group_depth_limit());
            lemma_unknown_run_concat(self.bytes@, raw@, ErrorMessageModel::keeps(), group_depth_limit());
            lemma_unknown_run_empty(ErrorMessageModel::keeps(), group_depth_limit());
        }
        let mut bytes = Vec::new();
        std::mem::swap(&mut bytes, &mut self.bytes);
        append_bytes(&mut bytes, raw);
        self.bytes = bytes;
    }

    /// Adds the unknown fields of another message of the same kind.
    fn append(&mut self, other: &Self)
        ensures
            final(self)@ == old(self)@ + other@,
    {
        proof {
            use_type_invariant(&*self);
            use_type_invariant(other);
            lemma_unknown_run_concat(self.bytes@, other.bytes@, ErrorMessageModel::keeps(), group_depth_limit());
            lemma_unknown_run_empty(ErrorMessageModel::keeps(), group_depth_limit());
        }
        let mut bytes = Vec::new();
        std::mem::swap(&mut bytes, &mut self.bytes);
        append_bytes(&mut bytes, other.bytes.as_slice());
        self.bytes = bytes;
    }

    fn as_slice(&self) -> (r: &[u8])
        ensures
            r@ == self@,
    {
        proof {
            use_type_invariant(self);
        }
        self.bytes.as_slice()
    }

    fn copy(&self) -> (r: Self)
        ensures
            r@ == self@,
    {
        proof {
            use_type_invariant(self);
        }
        ErrorMessageUnknown { bytes: copy_bytes(self.bytes.as_slice()) }
    }
}

impl WireMessage for ErrorMessage {
    open spec fn apply_wire(message: ErrorMessageModel, field: nat, value: WireValue, raw: Seq<u8>, depth: nat) -> Option<ErrorMessageModel> {
        message.apply(field, value, raw, depth)
    }

    open spec fn keeps_unknown(field: nat, value: WireValue) -> bool {
        ErrorMessageModel::keeps_unknown(field, value)
    }

    open spec fn add_unknown(message: ErrorMessageModel, raw: Seq<u8>) -> ErrorMessageModel {
        ErrorMessageModel { unknown: message.unknown + raw, ..message }
    }

    proof fn lemma_apply_unknown(message: ErrorMessageModel, field: nat, value: WireValue, raw: Seq<u8>, depth: nat) {
        reveal(ErrorMessageModel::apply);
    }

    proof fn lemma_add_unknown(message: ErrorMessageModel, a: Seq<u8>, b: Seq<u8>) {
        assert(message.unknown + a + b =~= message.unknown + (a + b));
        assert(message.unknown + Seq::<u8>::empty() =~= message.unknown);
    }

    fn apply_field(
        &mut self,
        data: &[u8],
        field: u32,
        value: FieldValue,
        start: usize,
        end: usize,
        depth: u32,
    ) -> (ok: bool) {
        proof {
            reveal(ErrorMessageModel::apply);
        }
        if field == 1 {
            if let FieldValue::Varint(v) = value {
                self.code = ErrorCode(to_i32(v));
                return true;
            }
        } else if field == 2 {
            if let FieldValue::Delimited(from, to) = value {
                match proto_string(&data[from..to]) {
                    Some(text) => self.message = text,
                    None => return false,
                }
                return true;
            }
        } else if field == 3 {
            if let FieldValue::Delimited(from, to) = value {
                match proto_string(&data[from..to]) {
                    Some(text) => self.details = text,
                    None => return false,
                }
                return true;
            }
        } else if field == 4 {
            if let FieldValue::Varint(v) = value {
                self.timestamp = v;
                return true;
            }
        }
        proof {
            lemma_decode_field_deeper(data@.subrange(start as int, end as int), depth as nat, group_depth_limit());
        }
        self.unknown.push_field(&data[start..end], Ghost(field as nat), Ghost(value.wire(data@)));
        true
    }
}

/// The content of every `ErrorMessage` is well formed.
pub proof fn lemma_error_message_well_formed(m: ErrorMessage)
    ensures
        m@.well_formed(),
{
    lemma_unknown_run_fields::<ErrorMessage>(m.unknown.bytes@, ErrorMessageModel::keeps(), group_depth_limit());
}

impl ErrorMessage {
    /// A message with every field at its default.
    pub fn new() -> (r: Self)
        ensures
            r@ == ErrorMessageModel::empty(),
    {
        let r = ErrorMessage {
            code: ErrorCode(0),
            message: String::new(),
            details: String::new(),
            timestamp: 0,
            unknown: ErrorMessageUnknown::new(),
        };
        r
    }

    /// Reads a message from its wire form.
    pub fn parse(data: &[u8]) -> (r: Result<Self, protobuf::ParseError>)
        ensures
            match merge_message::<ErrorMessage>(ErrorMessageModel::empty(), data@, group_depth_limit()) {
                Some(m) => r matches Ok(msg) && msg@ == m && m.well_formed(),
                None => r is Err,
            },
    {
        proof {
            if merge_message::<ErrorMessage>(ErrorMessageModel::empty(), data@, group_depth_limit()) is Some {
                lemma_error_message_parse_well_formed(ErrorMessageModel::empty(), data@, group_depth_limit());
            }
        }
        let mut msg = Self::new();
        if merge_bytes(&mut msg, data, 100) {
            Ok(msg)
        } else {
            Err(parse_error())
        }
    }

    /// Same as `parse`: the message has no required fields.
    pub fn parse_dont_enforce_required(data: &[u8]) -> (r: Result<Self, protobuf::ParseError>)
        ensures
            match merge_message::<ErrorMessage>(ErrorMessageModel::empty(), data@, group_depth_limit()) {
                Some(m) => r matches Ok(msg) && msg@ == m && m.well_formed(),
                None => r is Err,
            },
    {
        Self::parse(data)
    }

    /// Resets every field to its default.
    pub fn clear(&mut self)
        ensures
            final(self)@ == ErrorMessageModel::empty(),
    {
        *self = ErrorMessage::new();
    }

    /// Replaces the message by the one `data` encodes; on an error what the
    /// message then holds is unspecified.
    pub fn clear_and_parse(&mut self, data: &[u8]) -> (r: Result<(), protobuf::ParseError>)
        ensures
            match merge_message::<ErrorMessage>(ErrorMessageModel::empty(), data@, group_depth_limit()) {
                Some(m) => r is Ok && final(self)@ == m && m.well_formed(),
                None => r is Err,
            },
    {
        proof {
            if merge_message::<ErrorMessage>(ErrorMessageModel::empty(), data@, group_depth_limit()) is Some {
                lemma_error_message_parse_well_formed(ErrorMessageModel::empty(), data@, group_depth_limit());
            }
        }
        *self = ErrorMessage::new();
        if merge_bytes(self, data, 100) {
            Ok(())
        } else {
            Err(parse_error())
        }
    }

    /// Same as `clear_and_parse`: the message has no required fields; on an error what the
    /// message then holds is unspecified.
    pub fn clear_and_parse_dont_enforce_required(&mut self, data: &[u8]) -> (r: Result<(), protobuf::ParseError>)
        ensures
            match merge_message::<ErrorMessage>(ErrorMessageModel::empty(), data@, group_depth_limit()) {
                Some(m) => r is Ok && final(self)@ == m && m.well_formed(),
                None => r is Err,
            },
    {
        self.clear_and_parse(data)
    }

    /// Makes this message a copy of `src`.
    pub fn copy_from(&mut self, src: ErrorMessageView<'_>)
        ensures
            final(self)@ == src@,
    {
        *self = src.to_owned();
    }

    /// Moves the content of `src` here, leaving `src` empty.
    pub fn take_from(&mut self, src: &mut ErrorMessage)
        ensures
            final(self)@ == old(src)@,
            final(src)@ == ErrorMessageModel::empty(),
    {
        let mut taken = ErrorMessage::new();
        std::mem::swap(&mut taken, src);
        *self = taken;
    }

    /// Merges `src` into this message (see `merge` on the model).
    pub fn merge_from(&mut self, src: ErrorMessageView<'_>)
        ensures
            final(self)@ == old(self)@.merge(src@),
    {
        match src.msg {
            Some(other) => self.merge_fields_from(other),
            None => {
                proof {
                    lemma_error_message_merge_empty(self@);
                }
            },
        }
    }

    fn merge_fields_from(&mut self, other: &ErrorMessage)
        ensures
            final(self)@ == old(self)@.merge(other@),
    {
        proof {
            reveal(ErrorMessageModel::merge);
        }
        let ghost start = self@;
        if other.code.0 != 0 {
            self.code = other.code;
        }
        if !other.message.as_str().is_empty() {
            self.message = other.message.clone();
        }
        if !other.details.as_str().is_empty() {
            self.details = other.details.clone();
        }
        if other.timestamp != 0 {
            self.timestamp = other.timestamp;
        }
        self.unknown.append(&other.unknown);
        assert(self@ =~= start.merge(other@));
    }

    /// Appends the wire form to `buf`.
    pub fn write_to(&self, buf: &mut Vec<u8>)
        ensures
            final(buf)@ == old(buf)@ + self@.encode(),
    {
        let ghost start = buf@;
        let ghost c1 = varint_field(1, i32_wire(self@.code.0));
        let ghost c2 = bytes_field(2, encode_utf8(self@.message));
        let ghost c3 = bytes_field(3, encode_utf8(self@.details));
        let ghost c4 = varint_field(4, self@.timestamp);
        let ghost c5 = self@.unknown;
        write_varint_field(buf, 1, from_i32(self.code.0));
        let ghost mut written = c1;
        assert(buf@ == start + written);
        write_bytes_field(buf, 2, self.message.as_str().as_bytes());
        proof {
            lemma_concat_associative(start, written, c2);
            written = written + c2;
        }
        assert(buf@ == start + written);
        write_bytes_field(buf, 3, self.details.as_str().as_bytes());
        proof {
            lemma_concat_associative(start, written, c3);
            written = written + c3;
        }
        assert(buf@ == start + written);
        write_varint_field(buf, 4, self.timestamp);
        proof {
            lemma_concat_associative(start, written, c4);
            written = written + c4;
        }
        assert(buf@ == start + written);
        append_bytes(buf, self.unknown.as_slice());
        proof {
            lemma_concat_associative(start, written, c5);
            written = written + c5;
        }
        assert(buf@ == start + written);
        assert(self@.encode() == written) by {
            assert(written == c1 + c2 + c3 + c4 + c5);
            reveal(ErrorMessageModel::encode);
        }
    }

    /// The wire form, refused when it is longer than `i32::MAX` bytes. The
    /// message is well formed, so the wire form reads back as the message.
    pub fn serialize(&self) -> (r: Result<Vec<u8>, protobuf::SerializeError>)
        ensures
            match r {
                Ok(bytes) => bytes@ == self@.encode() && self@.encode().len() <= 0x7fff_ffff,
                Err(_) => self@.encode().len() > 0x7fff_ffff,
            },
            self@.well_formed(),
            self@.encode().len() <= size_limit() ==> merge_message::<ErrorMessage>(
                ErrorMessageModel::empty(),
                self@.encode(),
                group_depth_limit(),
            ) == Some(self@),
    {
        proof {
            lemma_error_message_well_formed(*self);
            if self@.encode().len() <= size_limit() {
                lemma_error_message_roundtrip(self@, group_depth_limit());
            }
        }
        let mut buf = Vec::new();
        self.write_to(&mut buf);
        assert(buf@ =~= self@.encode());
        if buf.len() > 0x7fff_ffff {
            return Err(serialize_error());
        }
        Ok(buf)
    }

    pub fn as_view(&self) -> (r: ErrorMessageView<'_>)
        ensures
            r@ == self@,
    {
        ErrorMessageView::new(self)
    }

    pub fn as_mut(&mut self) -> (r: ErrorMessageMut<'_>)
        ensures
            r@ == old(self)@,
            *final(self) == *final(r.msg),
    {
        ErrorMessageMut::new(self)
    }

    pub fn code(&self) -> (r: ErrorCode)
        ensures
            r == self@.code,
    {
        self.code
    }

    pub fn set_code(&mut self, val: ErrorCode)
        ensures
            final(self)@ == (ErrorMessageModel { code: val, ..old(self)@ }),
    {
        self.code = val;
    }

    pub fn message(&self) -> (r: &str)
        ensures
            r@ == self@.message,
    {
        self.message.as_str()
    }

    pub fn set_message(&mut self, val: &str)
        ensures
            final(self)@ == (ErrorMessageModel { message: val@, ..old(self)@ }),
    {
        self.message = val.to_owned();
    }

    pub fn details(&self) -> (r: &str)
        ensures
            r@ == self@.details,
    {
        self.details.as_str()
    }

    pub fn set_details(&mut self, val: &str)
        ensures
            final(self)@ == (ErrorMessageModel { details: val@, ..old(self)@ }),
    {
        self.details = val.to_owned();
    }

    pub fn timestamp(&self) -> (r: u64)
        ensures
            r == self@.timestamp,
    {
        self.timestamp
    }

    pub fn set_timestamp(&mut self, val: u64)
        ensures
            final(self)@ == (ErrorMessageModel { timestamp: val, ..old(self)@ }),
    {
        self.timestamp = val;
    }
}

impl Clone for ErrorMessage {
    fn clone(&self) -> (r: Self)
        ensures
            r@ == self@,
    {
        let r = ErrorMessage {
            code: self.code,
            message: self.message.clone(),
            details: self.details.clone(),
            timestamp: self.timestamp,
            unknown: self.unknown.copy(),
        };
        r
    }
}

impl Default for ErrorMessage {
    fn default() -> (r: Self)
        ensures
            r@ == ErrorMessageModel::empty(),
    {
        Self::new()
    }
}

/// Read access to a `ErrorMessage`; the default view reads as the empty message.
#[derive(Clone, Copy)]
pub struct ErrorMessageView<'msg> {
    msg: Option<&'msg ErrorMessage>,
}

impl<'msg> View for ErrorMessageView<'msg> {
    type V = ErrorMessageModel;

    closed spec fn view(&self) -> ErrorMessageModel {
        match self.msg {
            Some(m) => m@,
            None => ErrorMessageModel::empty(),
        }
    }
}

impl<'msg> ErrorMessageView<'msg> {
    pub fn new(msg: &'msg ErrorMessage) -> (r: Self)
        ensures
            r@ == msg@,
    {
        ErrorMessageView { msg: Some(msg) }
    }

    /// An owned copy of the message.
    pub fn to_owned(&self) -> (r: ErrorMessage)
        ensures
            r@ == self@,
    {
        match self.msg {
            Some(m) => m.clone(),
            None => ErrorMessage::new(),
        }
    }

    /// The wire form, refused when it is longer than `i32::MAX` bytes. The
    /// message is well formed, so the wire form reads back as the message.
    pub fn serialize(&self) -> (r: Result<Vec<u8>, protobuf::SerializeError>)
        ensures
            match r {
                Ok(bytes) => bytes@ == self@.encode() && self@.encode().len() <= 0x7fff_ffff,
                Err(_) => self@.encode().len() > 0x7fff_ffff,
            },
            self@.well_formed(),
            self@.encode().len() <= size_limit() ==> merge_message::<ErrorMessage>(
                ErrorMessageModel::empty(),
                self@.encode(),
                group_depth_limit(),
            ) == Some(self@),
    {
        match self.msg {
            Some(m) => m.serialize(),
            None => ErrorMessage::new().serialize(),
        }
    }

    pub fn code(self) -> (r: ErrorCode)
        ensures
            r == self@.code,
    {
        match self.msg {
            Some(m) => m.code,
            None => ErrorCode(0),
        }
    }

    pub fn message(self) -> (r: &'msg str)
        ensures
            r@ == self@.message,
    {
        match self.msg {
            Some(m) => m.message.as_str(),
            None => {
                proof {
                    reveal_strlit("");
                }
                ""
            },
        }
    }

    pub fn details(self) -> (r: &'msg str)
        ensures
            r@ == self@.details,
    {
        match self.msg {
            Some(m) => m.details.as_str(),
            None => {
                proof {
                    reveal_strlit("");
                }
                ""
            },
        }
    }

    pub fn timestamp(self) -> (r: u64)
        ensures
            r == self@.timestamp,
    {
        match self.msg {
            Some(m) => m.timestamp,
            None => 0,
        }
    }
}

impl<'msg> Default for ErrorMessageView<'msg> {
    fn default() -> (r: Self)
        ensures
            r@ == ErrorMessageModel::empty(),
    {
        ErrorMessageView { msg: None }
    }
}

/// Write access to a `ErrorMessage` held elsewhere.
pub struct ErrorMessageMut<'msg> {
    /// The message written through this handle.
    pub msg: &'msg mut ErrorMessage,
}

impl<'msg> View for ErrorMessageMut<'msg> {
    type V = ErrorMessageModel;

    open spec fn view(&self) -> ErrorMessageModel {
        (*self.msg)@
    }
}

impl<'msg> ErrorMessageMut<'msg> {
    pub fn new(msg: &'msg mut ErrorMessage) -> (r: Self)
        ensures
            r@ == old(msg)@,
            *final(msg) == *final(r.msg),
    {
        ErrorMessageMut { msg }
    }

    /// An owned copy of the message.
    pub fn to_owned(&self) -> (r: ErrorMessage)
        ensures
            r@ == self@,
    {
        self.msg.clone()
    }

    pub fn as_view(&self) -> (r: ErrorMessageView<'_>)
        ensures
            r@ == self@,
    {
        ErrorMessageView::new(self.msg)
    }

    /// The wire form, refused when it is longer than `i32::MAX` bytes. The
    /// message is well formed, so the wire form reads back as the message.
    pub fn serialize(&self) -> (r: Result<Vec<u8>, protobuf::SerializeError>)
        ensures
            match r {
                Ok(bytes) => bytes@ == self@.encode() && self@.encode().len() <= 0x7fff_ffff,
                Err(_) => self@.encode().len() > 0x7fff_ffff,
            },
            self@.well_formed(),
            self@.encode().len() <= size_limit() ==> merge_message::<ErrorMessage>(
                ErrorMessageModel::empty(),
                self@.encode(),
                group_depth_limit(),
            ) == Some(self@),
    {
        self.msg.serialize()
    }

    /// Resets every field to its default.
    pub fn clear(&mut self)
        ensures
            final(self)@ == ErrorMessageModel::empty(),
            *final(final(self).msg) == *final(old(self).msg),
    {
        self.msg.clear();
    }

    /// Replaces the message by the one `data` encodes.
    pub fn clear_and_parse(&mut self, data: &[u8]) -> (r: Result<(), protobuf::ParseError>)
        ensures
            match merge_message::<ErrorMessage>(ErrorMessageModel::empty(), data@, group_depth_limit()) {
                Some(m) => r is Ok && final(self)@ == m && m.well_formed(),
                None => r is Err,
            },
            *final(final(self).msg) == *final(old(self).msg),
    {
        self.msg.clear_and_parse(data)
    }

    /// Replaces the message by the one `data` encodes.
    pub fn clear_and_parse_dont_enforce_required(&mut self, data: &[u8]) -> (r: Result<(), protobuf::ParseError>)
        ensures
            match merge_message::<ErrorMessage>(ErrorMessageModel::empty(), data@, group_depth_limit()) {
                Some(m) => r is Ok && final(self)@ == m && m.well_formed(),
                None => r is Err,
            },
            *final(final(self).msg) == *final(old(self).msg),
    {
        self.msg.clear_and_parse_dont_enforce_required(data)
    }

    /// Makes the message a copy of `src`.
    pub fn copy_from(&mut self, src: ErrorMessageView<'_>)
        ensures
            final(self)@ == src@,
            *final(final(self).msg) == *final(old(self).msg),
    {
        self.msg.copy_from(src);
    }

    /// Merges `src` into the message.
    pub fn merge_from(&mut self, src: ErrorMessageView<'_>)
        ensures
            final(self)@ == old(self)@.merge(src@),
            *final(final(self).msg) == *final(old(self).msg),
    {
        self.msg.merge_from(src);
    }

    pub fn code(&self) -> (r: ErrorCode)
        ensures
            r == self@.code,
    {
        self.msg.code()
    }

    pub fn set_code(&mut self, val: ErrorCode)
        ensures
            final(self)@ == (ErrorMessageModel { code: val, ..old(self)@ }),
            *final(final(self).msg) == *final(old(self).msg),
    {
        self.msg.set_code(val);
    }

    pub fn message(&self) -> (r: &str)
        ensures
            r@ == self@.message,
    {
        self.msg.message()
    }

    pub fn set_message(&mut self, val: &str)
        ensures
            final(self)@ == (ErrorMessageModel { message: val@, ..old(self)@ }),
            *final(final(self).msg) == *final(old(self).msg),
    {
        self.msg.set_message(val);
    }

    pub fn details(&self) -> (r: &str)
        ensures
            r@ == self@.details,
    {
        self.msg.details()
    }

    pub fn set_details(&mut self, val: &str)
        ensures
            final(self)@ == (ErrorMessageModel { details: val@, ..old(self)@ }),
            *final(final(self).msg) == *final(old(self).msg),
    {
        self.msg.set_details(val);
    }

    pub fn timestamp(&self) -> (r: u64)
        ensures
            r == self@.timestamp,
    {
        self.msg.timestamp()
    }

    pub fn set_timestamp(&mut self, val: u64)
        ensures
            final(self)@ == (ErrorMessageModel { timestamp: val, ..old(self)@ }),
            *final(final(self).msg) == *final(old(self).msg),
    {
        self.msg.set_timestamp(val);
    }
}

/// The content of a `Heartbeat`.
pub struct HeartbeatModel {
    pub device_id: Seq<char>,
    pub timestamp: u64,
    pub sequence_number: u32,
    /// The fields read but not understood, as they came, in order.
    pub unknown: Seq<u8>,
}

impl HeartbeatModel {
    /// The message with every field at its default.
    pub open spec fn empty() -> Self {
        HeartbeatModel {
            device_id: Seq::empty(),
            timestamp: 0,
            sequence_number: 0,
            unknown: Seq::empty(),
        }
    }

    /// The wire form: fields in number order, defaults and absent
    /// sub-messages left out, then the unknown fields as they came.
    #[verifier::opaque]
    pub open spec fn encode(self) -> Seq<u8> {
        bytes_field(1, encode_utf8(self.device_id))
            + varint_field(2, self.timestamp)
            + varint_field(3, self.sequence_number as u64)
            + self.unknown
    }

    /// Whether a field is kept, as it came, among the unknown fields: its
    /// number is not one of this message's, or it comes with another wire
    /// type than its field is written with.
    pub open spec fn keeps_unknown(field: nat, value: WireValue) -> bool {
        if field == 1 {
            !(value is Delimited)
        } else if field == 2 {
            !(value is Varint)
        } else if field == 3 {
            !(value is Varint)
        } else {
            true
        }
    }

    /// `keeps_unknown` as a function.
    pub open spec fn keeps() -> spec_fn(nat, WireValue) -> bool {
        |field: nat, value: WireValue| HeartbeatModel::keeps_unknown(field, value)
    }

    /// How one field of the wire form changes the message; `raw` is the
    /// field as it came. `None` when the field's content is malformed.
    #[verifier::opaque]
    pub open spec fn apply(self, field: nat, value: WireValue, raw: Seq<u8>, depth: nat) -> Option<Self> {
        if Self::keeps_unknown(field, value) {
            Some(HeartbeatModel { unknown: self.unknown + raw, ..self })
        } else if field == 1 {
            match value {
                WireValue::Delimited(b) => if valid_utf8(b) {
                    Some(HeartbeatModel { device_id: decode_utf8(b), ..self })
                } else {
                    None
                },
                _ => Some(self),
            }
        } else if field == 2 {
            match value {
                WireValue::Varint(v) => Some(HeartbeatModel { timestamp: v, ..self }),
                _ => Some(self),
            }
        } else if field == 3 {
            match value {
                WireValue::Varint(v) => Some(HeartbeatModel { sequence_number: wire_u32(v), ..self }),
                _ => Some(self),
            }
        } else {
            Some(self)
        }
    }

    /// `other` merged into this message, as protobuf merges: a scalar, string
    /// or bytes field set in `other` replaces the one here, repeated fields
    /// are appended, sub-messages are merged, map entries inserted and
    /// unknown fields appended.
    #[verifier::opaque]
    pub open spec fn merge(self, other: Self) -> Self {
        HeartbeatModel {
            device_id: if other.device_id.len() > 0 { other.device_id } else { self.device_id },
            timestamp: if other.timestamp != 0 { other.timestamp } else { self.timestamp },
            sequence_number: if other.sequence_number != 0 { other.sequence_number } else { self.sequence_number },
            unknown: self.unknown + other.unknown,
        }
    }

    /// What writing the message out and reading it back relies on: the
    /// unknown fields are whole fields this message does not read, and
    /// the same holds of every sub-message.
    pub open spec fn well_formed(self) -> bool {
        &&& unknown_fields::<Heartbeat>(self.unknown, group_depth_limit())
    }

    /// What reading the wire form back with `depth` levels of nesting left
    /// relies on: the message is well formed, its unknown fields read as
    /// whole fields with `depth` levels, and each sub-message reads back
    /// with one level less.
    pub open spec fn well_formed_at(self, depth: nat) -> bool {
        &&& self.well_formed()
        &&& unknown_fields::<Heartbeat>(self.unknown, depth)
    }
}

/// Reading the `device_id` field as `b` writes it merges it into `m`.
proof fn lemma_heartbeat_read_device_id(m: HeartbeatModel, b: HeartbeatModel, rest: Seq<u8>, depth: nat)
    requires
        bytes_field(1, encode_utf8(b.device_id)).len() <= size_limit(),
    ensures
        merge_message::<Heartbeat>(m, bytes_field(1, encode_utf8(b.device_id)) + rest, depth) == merge_message::<Heartbeat>(
            HeartbeatModel { device_id: if b.device_id.len() > 0 { b.device_id } else { m.device_id }, ..m },
            rest,
            depth,
        ),
{
    let next = HeartbeatModel { device_id: if b.device_id.len() > 0 { b.device_id } else { m.device_id }, ..m };
    reveal(HeartbeatModel::apply);
    encode_utf8_decode_utf8(b.device_id);
    encode_utf8_valid_utf8(b.device_id);
    lemma_merge_bytes_field::<Heartbeat>(m, 1, encode_utf8(b.device_id), rest, next, depth);
}

/// Reading the `timestamp` field as `b` writes it merges it into `m`.
proof fn lemma_heartbeat_read_timestamp(m: HeartbeatModel, b: HeartbeatModel, rest: Seq<u8>, depth: nat)
    requires
        varint_field(2, b.timestamp).len() <= size_limit(),
    ensures
        merge_message::<Heartbeat>(m, varint_field(2, b.timestamp) + rest, depth) == merge_message::<Heartbeat>(
            HeartbeatModel { timestamp: if b.timestamp != 0 { b.timestamp } else { m.timestamp }, ..m },
            rest,
            depth,
        ),
{
    let next = HeartbeatModel { timestamp: if b.timestamp != 0 { b.timestamp } else { m.timestamp }, ..m };
    reveal(HeartbeatModel::apply);
    lemma_merge_varint_field::<Heartbeat>(m, 2, b.timestamp, rest, next, depth);
}

/// Reading the `sequence_number` field as `b` writes it merges it into `m`.
proof fn lemma_heartbeat_read_sequence_number(m: HeartbeatModel, b: HeartbeatModel, rest: Seq<u8>, depth: nat)
    requires
        varint_field(3, b.sequence_number as u64).len() <= size_limit(),
    ensures
        merge_message::<Heartbeat>(m, varint_field(3, b.sequence_number as u64) + rest, depth) == merge_message::<Heartbeat>(
            HeartbeatModel { sequence_number: if b.sequence_number != 0 { b.sequence_number } else { m.sequence_number }, ..m },
            rest,
            depth,
        ),
{
    let next = HeartbeatModel { sequence_number: if b.sequence_number != 0 { b.sequence_number } else { m.sequence_number }, ..m };
    reveal(HeartbeatModel::apply);
    lemma_merge_varint_field::<Heartbeat>(m, 3, b.sequence_number as u64, rest, next, depth);
}

/// Reading the unknown fields as `b` writes them adds them to those of `m`.
proof fn lemma_heartbeat_read_unknown(m: HeartbeatModel, b: HeartbeatModel, rest: Seq<u8>, depth: nat)
    requires
        b.unknown.len() <= size_limit(),
        b.well_formed_at(depth),
    ensures
        merge_message::<Heartbeat>(m, b.unknown + rest, depth) == merge_message::<Heartbeat>(
            HeartbeatModel { unknown: m.unknown + b.unknown, ..m },
            rest,
            depth,
        ),
{
    lemma_merge_unknown::<Heartbeat>(m, b.unknown, rest, depth);
}

/// Reading the wire form of `b` into `a`, with `depth` levels of nesting left,
/// gives `b` merged into `a`.
pub proof fn lemma_heartbeat_merge_wire(a: HeartbeatModel, b: HeartbeatModel, depth: nat)
    requires
        b.encode().len() <= size_limit(),
        b.well_formed_at(depth),
    ensures
        merge_message::<Heartbeat>(a, b.encode(), depth) == Some(a.merge(b)),
{
    let c1 = bytes_field(1, encode_utf8(b.device_id));
    let c2 = varint_field(2, b.timestamp);
    let c3 = varint_field(3, b.sequence_number as u64);
    let c4 = b.unknown;
    assert(b.encode() == c1 + c2 + c3 + c4) by {
        reveal(HeartbeatModel::encode);
    }
    let m0 = a;
    let m1 = HeartbeatModel { device_id: if b.device_id.len() > 0 { b.device_id } else { m0.device_id }, ..m0 };
    lemma_heartbeat_read_device_id(m0, b, Seq::empty(), depth);
    assert(c1 + Seq::empty() =~= c1);
    lemma_merge_nothing::<Heartbeat>(m1, depth);
    let m2 = HeartbeatModel { timestamp: if b.timestamp != 0 { b.timestamp } else { m1.timestamp }, ..m1 };
    lemma_heartbeat_read_timestamp(m1, b, Seq::empty(), depth);
    assert(c2 + Seq::empty() =~= c2);
    lemma_merge_nothing::<Heartbeat>(m2, depth);
    lemma_merge_concat::<Heartbeat>(a, c1, c2, depth);
    let m3 = HeartbeatModel { sequence_number: if b.sequence_number != 0 { b.sequence_number } else { m2.sequence_number }, ..m2 };
    lemma_heartbeat_read_sequence_number(m2, b, Seq::empty(), depth);
    assert(c3 + Seq::empty() =~= c3);
    lemma_merge_nothing::<Heartbeat>(m3, depth);
    lemma_merge_concat::<Heartbeat>(a, c1 + c2, c3, depth);
    let m4 = HeartbeatModel { unknown: m3.unknown + b.unknown, ..m3 };
    lemma_heartbeat_read_unknown(m3, b, Seq::empty(), depth);
    assert(c4 + Seq::empty() =~= c4);
    lemma_merge_nothing::<Heartbeat>(m4, depth);
    lemma_merge_concat::<Heartbeat>(a, c1 + c2 + c3, c4, depth);
    assert(m4 == a.merge(b)) by {
        reveal(HeartbeatModel::merge);
    }
}

/// Merging the empty message changes nothing.
pub proof fn lemma_heartbeat_merge_empty(a: HeartbeatModel)
    ensures
        a.merge(HeartbeatModel::empty()) == a,
{
    reveal(HeartbeatModel::merge);
    assert(a.unknown + Seq::empty() =~= a.unknown);
    assert(a.merge(HeartbeatModel::empty()) =~= a);
}

/// Merging a message into the empty one gives that message.
pub proof fn lemma_heartbeat_empty_merge(b: HeartbeatModel)
    ensures
        HeartbeatModel::empty().merge(b) == b,
{
    reveal(HeartbeatModel::merge);
    assert(b.device_id.len() == 0 ==> b.device_id =~= Seq::<char>::empty());
    assert(Seq::empty() + b.unknown =~= b.unknown);
    assert(HeartbeatModel::empty().merge(b) =~= b);
}

/// Writing a message out and reading it back, with `depth` levels of
/// nesting left (`group_depth_limit()` for a message read on its own),
/// gives the same message.
pub proof fn lemma_heartbeat_roundtrip(m: HeartbeatModel, depth: nat)
    requires
        m.encode().len() <= size_limit(),
        m.well_formed_at(depth),
    ensures
        merge_message::<Heartbeat>(HeartbeatModel::empty(), m.encode(), depth) == Some(m),
{
    lemma_heartbeat_merge_wire(HeartbeatModel::empty(), m, depth);
    lemma_heartbeat_empty_merge(m);
}

/// Reading two encoded messages written one after the other, with `depth`
/// levels of nesting left, gives the second merged into the first.
pub proof fn lemma_heartbeat_concat(a: HeartbeatModel, b: HeartbeatModel, depth: nat)
    requires
        a.encode().len() <= size_limit(),
        b.encode().len() <= size_limit(),
        a.well_formed_at(depth),
        b.well_formed_at(depth),
    ensures
        merge_message::<Heartbeat>(HeartbeatModel::empty(), a.encode() + b.encode(), depth) == Some(a.merge(b)),
{
    lemma_heartbeat_roundtrip(a, depth);
    lemma_merge_concat::<Heartbeat>(HeartbeatModel::empty(), a.encode(), b.encode(), depth);
    lemma_heartbeat_merge_wire(a, b, depth);
}

/// Merging two well-formed messages gives a well-formed message.
pub proof fn lemma_heartbeat_merge_well_formed(a: HeartbeatModel, b: HeartbeatModel)
    requires
        a.well_formed(),
        b.well_formed(),
    ensures
        a.merge(b).well_formed(),
{
    reveal(HeartbeatModel::merge);
    lemma_unknown_fields_concat::<Heartbeat>(a.unknown, b.unknown, group_depth_limit());
}

/// Reading one whole field into a well-formed message keeps it well formed.
proof fn lemma_heartbeat_apply_well_formed(m: HeartbeatModel, field: nat, value: WireValue, raw: Seq<u8>, depth: nat)
    requires
        m.well_formed(),
        depth <= group_depth_limit(),
        decode_field(raw, depth) == Some((field, value, raw.len())),
        m.apply(field, value, raw, depth) is Some,
    ensures
        m.apply(field, value, raw, depth)->0.well_formed(),
{
    reveal(HeartbeatModel::apply);
    if HeartbeatModel::keeps_unknown(field, value) {
        lemma_decode_field_deeper(raw, depth, group_depth_limit());
        lemma_unknown_field::<Heartbeat>(raw, field, value, group_depth_limit());
        lemma_unknown_fields_concat::<Heartbeat>(m.unknown, raw, group_depth_limit());
    }
}

/// Reading whole fields into a well-formed message, with at most
/// `group_depth_limit()` levels of nesting left, keeps it well formed.
pub proof fn lemma_heartbeat_parse_well_formed(m: HeartbeatModel, s: Seq<u8>, depth: nat)
    requires
        m.well_formed(),
        depth <= group_depth_limit(),
        merge_message::<Heartbeat>(m, s, depth) is Some,
    ensures
        merge_message::<Heartbeat>(m, s, depth)->0.well_formed(),
{
    assert forall|x: HeartbeatModel, field: nat, value: WireValue, raw: Seq<u8>|
        x.well_formed() && decode_field(raw, depth) == Some((field, value, raw.len())) && #[trigger] Heartbeat::apply_wire(
            x,
            field,
            value,
            raw,
            depth,
        ) is Some implies Heartbeat::apply_wire(x, field, value, raw, depth)->0.well_formed() by {
        lemma_heartbeat_apply_well_formed(x, field, value, raw, depth);
    }
    lemma_merge_preserves::<Heartbeat>(m, s, |x: HeartbeatModel| x.well_formed(), depth);
}

/// A liveness signal a device sends on a connection.
pub struct Heartbeat {
    device_id: String,
    timestamp: u64,
    sequence_number: u32,
    unknown: HeartbeatUnknown,
}

impl View for Heartbeat {
    type V = HeartbeatModel;

    closed spec fn view(&self) -> HeartbeatModel {
        HeartbeatModel {
            device_id: self.device_id@,
            timestamp: self.timestamp,
            sequence_number: self.sequence_number,
            unknown: self.unknown@,
        }
    }
}

/// The unknown fields of a `Heartbeat`: whole fields it does not read, as they
/// came, in order.
struct HeartbeatUnknown {
    bytes: Vec<u8>,
}

impl View for HeartbeatUnknown {
    type V = Seq<u8>;

    closed spec fn view(&self) -> Seq<u8> {
        if unknown_run(self.bytes@, HeartbeatModel::keeps(), group_depth_limit()) {
            self.bytes@
        } else {
            Seq::empty()
        }
    }
}

impl HeartbeatUnknown {
    #[verifier::type_invariant]
    closed spec fn whole(self) -> bool {
        unknown_run(self.bytes@, HeartbeatModel::keeps(), group_depth_limit())
    }

    fn new() -> (r: Self)
        ensures
            r@ == Seq::<u8>::empty(),
    {
        proof {
            lemma_unknown_run_empty(HeartbeatModel::keeps(), group_depth_limit());
        }
        HeartbeatUnknown { bytes: Vec::new() }
    }

    /// Adds one whole field that the message does not read.
    fn push_field(&mut self, raw: &[u8], Ghost(field): Ghost<nat>, Ghost(value): Ghost<WireValue>)
        requires
            decode_field(raw@, group_depth_limit()) == Some((field, value, raw@.len())),
            HeartbeatModel::keeps_unknown(field, value),
        ensures
            final(self)@ == old(self)@ + raw@,
    {
        proof {
            use_type_invariant(&*self);
            lemma_unknown_run_field(raw@, field, value, HeartbeatModel::keeps(), group_depth_limit());
            lemma_unknown_run_concat(self.bytes@, raw@, HeartbeatModel::keeps(), group_depth_limit());
            lemma_unknown_run_empty(HeartbeatModel::keeps(), group_depth_limit());
        }
        let mut bytes = Vec::new();
        std::mem::swap(&mut bytes, &mut self.bytes);
        append_bytes(&mut bytes, raw);
        self.bytes = bytes;
    }

    /// Adds the unknown fields of another message of the same kind.
    fn append(&mut self, other: &Self)
        ensures
            final(self)@ == old(self)@ + other@,
    {
        proof {
            use_type_invariant(&*self);
            use_type_invariant(other);
            lemma_unknown_run_concat(self.bytes@, other.bytes@, HeartbeatModel::keeps(), group_depth_limit());
            lemma_unknown_run_empty(HeartbeatModel::keeps(), group_depth_limit());
        }
        let mut bytes = Vec::new();
        std::mem::swap(&mut bytes, &mut self.bytes);
        append_bytes(&mut bytes, other.bytes.as_slice());
        self.bytes = bytes;
    }

    fn as_slice(&self) -> (r: &[u8])
        ensures
            r@ == self@,
    {
        proof {
            use_type_invariant(self);
        }
        self.bytes.as_slice()
    }

    fn copy(&self) -> (r: Self)
        ensures
            r@ == self@,
    {
        proof {
            use_type_invariant(self);
        }
        HeartbeatUnknown { bytes: copy_bytes(self.bytes.as_slice()) }
    }
}

impl WireMessage for Heartbeat {
    open spec fn apply_wire(message: HeartbeatModel, field: nat, value: WireValue, raw: Seq<u8>, depth: nat) -> Option<HeartbeatModel> {
        message.apply(field, value, raw, depth)
    }

    open spec fn keeps_unknown(field: nat, value: WireValue) -> bool {
        HeartbeatModel::keeps_unknown(field, value)
    }

    open spec fn add_unknown(message: HeartbeatModel, raw: Seq<u8>) -> HeartbeatModel {
        HeartbeatModel { unknown: message.unknown + raw, ..message }
    }

    proof fn lemma_apply_unknown(message: HeartbeatModel, field: nat, value: WireValue, raw: Seq<u8>, depth: nat) {
        reveal(HeartbeatModel::apply);
    }

    proof fn lemma_add_unknown(message: HeartbeatModel, a: Seq<u8>, b: Seq<u8>) {
        assert(message.unknown + a + b =~= message.unknown + (a + b));
        assert(message.unknown + Seq::<u8>::empty() =~= message.unknown);
    }

    fn apply_field(
        &mut self,
        data: &[u8],
        field: u32,
        value: FieldValue,
        start: usize,
        end: usize,
        depth: u32,
    ) -> (ok: bool) {
        proof {
            reveal(HeartbeatModel::apply);
        }
        if field == 1 {
            if let FieldValue::Delimited(from, to) = value {
                match proto_string(&data[from..to]) {
                    Some(text) => self.device_id = text,
                    None => return false,
                }
                return true;
            }
        } else if field == 2 {
            if let FieldValue::Varint(v) = value {
                self.timestamp = v;
                return true;
            }
        } else if field == 3 {
            if let FieldValue::Varint(v) = value {
                self.sequence_number = to_u32(v);
                return true;
            }
        }
        proof {
            lemma_decode_field_deeper(data@.subrange(start as int, end as int), depth as nat, group_depth_limit());
        }
        self.unknown.push_field(&data[start..end], Ghost(field as nat), Ghost(value.wire(data@)));
        true
    }
}

/// The content of every `Heartbeat` is well formed.
pub proof fn lemma_heartbeat_well_formed(m: Heartbeat)
    ensures
        m@.well_formed(),
{
    lemma_unknown_run_fields::<Heartbeat>(m.unknown.bytes@, HeartbeatModel::keeps(), group_depth_limit());
}

impl Heartbeat {
    /// A message with every field at its default.
    pub fn new() -> (r: Self)
        ensures
            r@ == HeartbeatModel::empty(),
    {
        let r = Heartbeat {
            device_id: String::new(),
            timestamp: 0,
            sequence_number: 0,
            unknown: HeartbeatUnknown::new(),
        };
        r
    }

    /// Reads a message from its wire form.
    pub fn parse(data: &[u8]) -> (r: Result<Self, protobuf::ParseError>)
        ensures
            match merge_message::<Heartbeat>(HeartbeatModel::empty(), data@, group_depth_limit()) {
                Some(m) => r matches Ok(msg) && msg@ == m && m.well_formed(),
                None => r is Err,
            },
    {
        proof {
            if merge_message::<Heartbeat>(HeartbeatModel::empty(), data@, group_depth_limit()) is Some {
                lemma_heartbeat_parse_well_formed(HeartbeatModel::empty(), data@, group_depth_limit());
            }
        }
        let mut msg = Self::new();
        if merge_bytes(&mut msg, data, 100) {
            Ok(msg)
        } else {
            Err(parse_error())
        }
    }

    /// Same as `parse`: the message has no required fields.
    pub fn parse_dont_enforce_required(data: &[u8]) -> (r: Result<Self, protobuf::ParseError>)
        ensures
            match merge_message::<Heartbeat>(HeartbeatModel::empty(), data@, group_depth_limit()) {
                Some(m) => r matches Ok(msg) && msg@ == m && m.well_formed(),
                None => r is Err,
            },
    {
        Self::parse(data)
    }

    /// Resets every field to its default.
    pub fn clear(&mut self)
        ensures
            final(self)@ == HeartbeatModel::empty(),
    {
        *self = Heartbeat::new();
    }

    /// Replaces the message by the one `data` encodes; on an error what the
    /// message then holds is unspecified.
    pub fn clear_and_parse(&mut self, data: &[u8]) -> (r: Result<(), protobuf::ParseError>)
        ensures
            match merge_message::<Heartbeat>(HeartbeatModel::empty(), data@, group_depth_limit()) {
                Some(m) => r is Ok && final(self)@ == m && m.well_formed(),
                None => r is Err,
            },
    {
        proof {
            if merge_message::<Heartbeat>(HeartbeatModel::empty(), data@, group_depth_limit()) is Some {
                lemma_heartbeat_parse_well_formed(HeartbeatModel::empty(), data@, group_depth_limit());
            }
        }
        *self = Heartbeat::new();
        if merge_bytes(self, data, 100) {
            Ok(())
        } else {
            Err(parse_error())
        }
    }

    /// Same as `clear_and_parse`: the message has no required fields; on an error what the
    /// message then holds is unspecified.
    pub fn clear_and_parse_dont_enforce_required(&mut self, data: &[u8]) -> (r: Result<(), protobuf::ParseError>)
        ensures
            match merge_message::<Heartbeat>(HeartbeatModel::empty(), data@, group_depth_limit()) {
                Some(m) => r is Ok && final(self)@ == m && m.well_formed(),
                None => r is Err,
            },
    {
        self.clear_and_parse(data)
    }

    /// Makes this message a copy of `src`.
    pub fn copy_from(&mut self, src: HeartbeatView<'_>)
        ensures
            final(self)@ == src@,
    {
        *self = src.to_owned();
    }

    /// Moves the content of `src` here, leaving `src` empty.
    pub fn take_from(&mut self, src: &mut Heartbeat)
        ensures
            final(self)@ == old(src)@,
            final(src)@ == HeartbeatModel::empty(),
    {
        let mut taken = Heartbeat::new();
        std::mem::swap(&mut taken, src);
        *self = taken;
    }

    /// Merges `src` into this message (see `merge` on the model).
    pub fn merge_from(&mut self, src: HeartbeatView<'_>)
        ensures
            final(self)@ == old(self)@.merge(src@),
    {
        match src.msg {
            Some(other) => self.merge_fields_from(other),
            None => {
                proof {
                    lemma_heartbeat_merge_empty(self@);
                }
            },
        }
    }

    fn merge_fields_from(&mut self, other: &Heartbeat)
        ensures
            final(self)@ == old(self)@.merge(other@),
    {
        proof {
            reveal(HeartbeatModel::merge);
        }
        let ghost start = self@;
        if !other.device_id.as_str().is_empty() {
            self.device_id = other.device_id.clone();
        }
        if other.timestamp != 0 {
            self.timestamp = other.timestamp;
        }
        if other.sequence_number != 0 {
            self.sequence_number = other.sequence_number;
        }
        self.unknown.append(&other.unknown);
        assert(self@ =~= start.merge(other@));
    }

    /// Appends the wire form to `buf`.
    pub fn write_to(&self, buf: &mut Vec<u8>)
        ensures
            final(buf)@ == old(buf)@ + self@.encode(),
    {
        let ghost start = buf@;
        let ghost c1 = bytes_field(1, encode_utf8(self@.device_id));
        let ghost c2 = varint_field(2, self@.timestamp);
        let ghost c3 = varint_field(3, self@.sequence_number as u64);
        let ghost c4 = self@.unknown;
        write_bytes_field(buf, 1, self.device_id.as_str().as_bytes());
        let ghost mut written = c1;
        assert(buf@ == start + written);
        write_varint_field(buf, 2, self.timestamp);
        proof {
            lemma_concat_associative(start, written, c2);
            written = written + c2;
        }
        assert(buf@ == start + written);
        write_varint_field(buf, 3, self.sequence_number as u64);
        proof {
            lemma_concat_associative(start, written, c3);
            written = written + c3;
        }
        assert(buf@ == start + written);
        append_bytes(buf, self.unknown.as_slice());
        proof {
            lemma_concat_associative(start, written, c4);
            written = written + c4;
        }
        assert(buf@ == start + written);
        assert(self@.encode() == written) by {
            assert(written == c1 + c2 + c3 + c4);
            reveal(HeartbeatModel::encode);
        }
    }

    /// The wire form, refused when it is longer than `i32::MAX` bytes. The
    /// message is well formed, so the wire form reads back as the message.
    pub fn serialize(&self) -> (r: Result<Vec<u8>, protobuf::SerializeError>)
        ensures
            match r {
                Ok(bytes) => bytes@ == self@.encode() && self@.encode().len() <= 0x7fff_ffff,
                Err(_) => self@.encode().len() > 0x7fff_ffff,
            },
            self@.well_formed(),
            self@.encode().len() <= size_limit() ==> merge_message::<Heartbeat>(
                HeartbeatModel::empty(),
                self@.encode(),
                group_depth_limit(),
            ) == Some(self@),
    {
        proof {
            lemma_heartbeat_well_formed(*self);
            if self@.encode().len() <= size_limit() {
                lemma_heartbeat_roundtrip(self@, group_depth_limit());
            }
        }
        let mut buf = Vec::new();
        self.write_to(&mut buf);
        assert(buf@ =~= self@.encode());
        if buf.len() > 0x7fff_ffff {
            return Err(serialize_error());
        }
        Ok(buf)
    }

    pub fn as_view(&self) -> (r: HeartbeatView<'_>)
        ensures
            r@ == self@,
    {
        HeartbeatView::new(self)
    }

    pub fn as_mut(&mut self) -> (r: HeartbeatMut<'_>)
        ensures
            r@ == old(self)@,
            *final(self) == *final(r.msg),
    {
        HeartbeatMut::new(self)
    }

    pub fn device_id(&self) -> (r: &str)
        ensures
            r@ == self@.device_id,
    {
        self.device_id.as_str()
    }

    pub fn set_device_id(&mut self, val: &str)
        ensures
            final(self)@ == (HeartbeatModel { device_id: val@, ..old(self)@ }),
    {
        self.device_id = val.to_owned();
    }

    pub fn timestamp(&self) -> (r: u64)
        ensures
            r == self@.timestamp,
    {
        self.timestamp
    }

    pub fn set_timestamp(&mut self, val: u64)
        ensures
            final(self)@ == (HeartbeatModel { timestamp: val, ..old(self)@ }),
    {
        self.timestamp = val;
    }

    pub fn sequence_number(&self) -> (r: u32)
        ensures
            r == self@.sequence_number,
    {
        self.sequence_number
    }

    pub fn set_sequence_number(&mut self, val: u32)
        ensures
            final(self)@ == (HeartbeatModel { sequence_number: val, ..old(self)@ }),
    {
        self.sequence_number = val;
    }
}

impl Clone for Heartbeat {
    fn clone(&self) -> (r: Self)
        ensures
            r@ == self@,
    {
        let r = Heartbeat {
            device_id: self.device_id.clone(),
            timestamp: self.timestamp,
            sequence_number: self.sequence_number,
            unknown: self.unknown.copy(),
        };
        r
    }
}

impl Default for Heartbeat {
    fn default() -> (r: Self)
        ensures
            r@ == HeartbeatModel::empty(),
    {
        Self::new()
    }
}

/// Read access to a `Heartbeat`; the default view reads as the empty message.
#[derive(Clone, Copy)]
pub struct HeartbeatView<'msg> {
    msg: Option<&'msg Heartbeat>,
}

impl<'msg> View for HeartbeatView<'msg> {
    type V = HeartbeatModel;

    closed spec fn view(&self) -> HeartbeatModel {
        match self.msg {
            Some(m) => m@,
            None => HeartbeatModel::empty(),
        }
    }
}

impl<'msg> HeartbeatView<'msg> {
    pub fn new(msg: &'msg Heartbeat) -> (r: Self)
        ensures
            r@ == msg@,
    {
        HeartbeatView { msg: Some(msg) }
    }

    /// An owned copy of the message.
    pub fn to_owned(&self) -> (r: Heartbeat)
        ensures
            r@ == self@,
    {
        match self.msg {
            Some(m) => m.clone(),
            None => Heartbeat::new(),
        }
    }

    /// The wire form, refused when it is longer than `i32::MAX` bytes. The
    /// message is well formed, so the wire form reads back as the message.
    pub fn serialize(&self) -> (r: Result<Vec<u8>, protobuf::SerializeError>)
        ensures
            match r {
                Ok(bytes) => bytes@ == self@.encode() && self@.encode().len() <= 0x7fff_ffff,
                Err(_) => self@.encode().len() > 0x7fff_ffff,
            },
            self@.well_formed(),
            self@.encode().len() <= size_limit() ==> merge_message::<Heartbeat>(
                HeartbeatModel::empty(),
                self@.encode(),
                group_depth_limit(),
            ) == Some(self@),
    {
        match self.msg {
            Some(m) => m.serialize(),
            None => Heartbeat::new().serialize(),
        }
    }

    pub fn device_id(self) -> (r: &'msg str)
        ensures
            r@ == self@.device_id,
    {
        match self.msg {
            Some(m) => m.device_id.as_str(),
            None => {
                proof {
                    reveal_strlit("");
                }
                ""
            },
        }
    }

    pub fn timestamp(self) -> (r: u64)
        ensures
            r == self@.timestamp,
    {
        match self.msg {
            Some(m) => m.timestamp,
            None => 0,
        }
    }

    pub fn sequence_number(self) -> (r: u32)
        ensures
            r == self@.sequence_number,
    {
        match self.msg {
            Some(m) => m.sequence_number,
            None => 0,
        }
    }
}

impl<'msg> Default for HeartbeatView<'msg> {
    fn default() -> (r: Self)
        ensures
            r@ == HeartbeatModel::empty(),
    {
        HeartbeatView { msg: None }
    }
}

/// Write access to a `Heartbeat` held elsewhere.
pub struct HeartbeatMut<'msg> {
    /// The message written through this handle.
    pub msg: &'msg mut Heartbeat,
}

impl<'msg> View for HeartbeatMut<'msg> {
    type V = HeartbeatModel;

    open spec fn view(&self) -> HeartbeatModel {
        (*self.msg)@
    }
}

impl<'msg> HeartbeatMut<'msg> {
    pub fn new(msg: &'msg mut Heartbeat) -> (r: Self)
        ensures
            r@ == old(msg)@,
            *final(msg) == *final(r.msg),
    {
        HeartbeatMut { msg }
    }

    /// An owned copy of the message.
    pub fn to_owned(&self) -> (r: Heartbeat)
        ensures
            r@ == self@,
    {
        self.msg.clone()
    }

    pub fn as_view(&self) -> (r: HeartbeatView<'_>)
        ensures
            r@ == self@,
    {
        HeartbeatView::new(self.msg)
    }

    /// The wire form, refused when it is longer than `i32::MAX` bytes. The
    /// message is well formed, so the wire form reads back as the message.
    pub fn serialize(&self) -> (r: Result<Vec<u8>, protobuf::SerializeError>)
        ensures
            match r {
                Ok(bytes) => bytes@ == self@.encode() && self@.encode().len() <= 0x7fff_ffff,
                Err(_) => self@.encode().len() > 0x7fff_ffff,
            },
            self@.well_formed(),
            self@.encode().len() <= size_limit() ==> merge_message::<Heartbeat>(
                HeartbeatModel::empty(),
                self@.encode(),
                group_depth_limit(),
            ) == Some(self@),
    {
        self.msg.serialize()
    }

    /// Resets every field to its default.
    pub fn clear(&mut self)
        ensures
            final(self)@ == HeartbeatModel::empty(),
            *final(final(self).msg) == *final(old(self).msg),
    {
        self.msg.clear();
    }

    /// Replaces the message by the one `data` encodes.
    pub fn clear_and_parse(&mut self, data: &[u8]) -> (r: Result<(), protobuf::ParseError>)
        ensures
            match merge_message::<Heartbeat>(HeartbeatModel::empty(), data@, group_depth_limit()) {
                Some(m) => r is Ok && final(self)@ == m && m.well_formed(),
                None => r is Err,
            },
            *final(final(self).msg) == *final(old(self).msg),
    {
        self.msg.clear_and_parse(data)
    }

    /// Replaces the message by the one `data` encodes.
    pub fn clear_and_parse_dont_enforce_required(&mut self, data: &[u8]) -> (r: Result<(), protobuf::ParseError>)
        ensures
            match merge_message::<Heartbeat>(HeartbeatModel::empty(), data@, group_depth_limit()) {
                Some(m) => r is Ok && final(self)@ == m && m.well_formed(),
                None => r is Err,
            },
            *final(final(self).msg) == *final(old(self).msg),
    {
        self.msg.clear_and_parse_dont_enforce_required(data)
    }

    /// Makes the message a copy of `src`.
    pub fn copy_from(&mut self, src: HeartbeatView<'_>)
        ensures
            final(self)@ == src@,
            *final(final(self).msg) == *final(old(self).msg),
    {
        self.msg.copy_from(src);
    }

    /// Merges `src` into the message.
    pub fn merge_from(&mut self, src: HeartbeatView<'_>)
        ensures
            final(self)@ == old(self)@.merge(src@),
            *final(final(self).msg) == *final(old(self).msg),
    {
        self.msg.merge_from(src);
    }

    pub fn device_id(&self) -> (r: &str)
        ensures
            r@ == self@.device_id,
    {
        self.msg.device_id()
    }

    pub fn set_device_id(&mut self, val: &str)
        ensures
            final(self)@ == (HeartbeatModel { device_id: val@, ..old(self)@ }),
            *final(final(self).msg) == *final(old(self).msg),
    {
        self.msg.set_device_id(val);
    }

    pub fn timestamp(&self) -> (r: u64)
        ensures
            r == self@.timestamp,
    {
        self.msg.timestamp()
    }

    pub fn set_timestamp(&mut self, val: u64)
        ensures
            final(self)@ == (HeartbeatModel { timestamp: val, ..old(self)@ }),
            *final(final(self).msg) == *final(old(self).msg),
    {
        self.msg.set_timestamp(val);
    }

    pub fn sequence_number(&self) -> (r: u32)
        ensures
            r == self@.sequence_number,
    {
        self.msg.sequence_number()
    }

    pub fn set_sequence_number(&mut self, val: u32)
        ensures
            final(self)@ == (HeartbeatModel { sequence_number: val, ..old(self)@ }),
            *final(final(self).msg) == *final(old(self).msg),
    {
        self.msg.set_sequence_number(val);
    }
}

/// The content of a `HeartbeatAck`.
pub struct HeartbeatAckModel {
    pub device_id: Seq<char>,
    pub received_timestamp: u64,
    pub sequence_number: u32,
    /// The fields read but not understood, as they came, in order.
    pub unknown: Seq<u8>,
}

impl HeartbeatAckModel {
    /// The message with every field at its default.
    pub open spec fn empty() -> Self {
        HeartbeatAckModel {
            device_id: Seq::empty(),
            received_timestamp: 0,
            sequence_number: 0,
            unknown: Seq::empty(),
        }
    }

    /// The wire form: fields in number order, defaults and absent
    /// sub-messages left out, then the unknown fields as they came.
    #[verifier::opaque]
    pub open spec fn encode(self) -> Seq<u8> {
        bytes_field(1, encode_utf8(self.device_id))
            + varint_field(2, self.received_timestamp)
            + varint_field(3, self.sequence_number as u64)
            + self.unknown
    }

    /// Whether a field is kept, as it came, among the unknown fields: its
    /// number is not one of this message's, or it comes with another wire
    /// type than its field is written with.
    pub open spec fn keeps_unknown(field: nat, value: WireValue) -> bool {
        if field == 1 {
            !(value is Delimited)
        } else if field == 2 {
            !(value is Varint)
        } else if field == 3 {
            !(value is Varint)
        } else {
            true
        }
    }

    /// `keeps_unknown` as a function.
    pub open spec fn keeps() -> spec_fn(nat, WireValue) -> bool {
        |field: nat, value: WireValue| HeartbeatAckModel::keeps_unknown(field, value)
    }

    /// How one field of the wire form changes the message; `raw` is the
    /// field as it came. `None` when the field's content is malformed.
    #[verifier::opaque]
    pub open spec fn apply(self, field: nat, value: WireValue, raw: Seq<u8>, depth: nat) -> Option<Self> {
        if Self::keeps_unknown(field, value) {
            Some(HeartbeatAckModel { unknown: self.unknown + raw, ..self })
        } else if field == 1 {
            match value {
                WireValue::Delimited(b) => if valid_utf8(b) {
                    Some(HeartbeatAckModel { device_id: decode_utf8(b), ..self })
                } else {
                    None
                },
                _ => Some(self),
            }
        } else if field == 2 {
            match value {
                WireValue::Varint(v) => Some(HeartbeatAckModel { received_timestamp: v, ..self }),
                _ => Some(self),
            }
        } else if field == 3 {
            match value {
                WireValue::Varint(v) => Some(HeartbeatAckModel { sequence_number: wire_u32(v), ..self }),
                _ => Some(self),
            }
        } else {
            Some(self)
        }
    }

    /// `other` merged into this message, as protobuf merges: a scalar, string
    /// or bytes field set in `other` replaces the one here, repeated fields
    /// are appended, sub-messages are merged, map entries inserted and
    /// unknown fields appended.
    #[verifier::opaque]
    pub open spec fn merge(self, other: Self) -> Self {
        HeartbeatAckModel {
            device_id: if other.device_id.len() > 0 { other.device_id } else { self.device_id },
            received_timestamp: if other.received_timestamp != 0 { other.received_timestamp } else { self.received_timestamp },
            sequence_number: if other.sequence_number != 0 { other.sequence_number } else { self.sequence_number },
            unknown: self.unknown + other.unknown,
        }
    }

    /// What writing the message out and reading it back relies on: the
    /// unknown fields are whole fields this message does not read, and
    /// the same holds of every sub-message.
    pub open spec fn well_formed(self) -> bool {
        &&& unknown_fields::<HeartbeatAck>(self.unknown, group_depth_limit())
    }

    /// What reading the wire form back with `depth` levels of nesting left
    /// relies on: the message is well formed, its unknown fields read as
    /// whole fields with `depth` levels, and each sub-message reads back
    /// with one level less.
    pub open spec fn well_formed_at(self, depth: nat) -> bool {
        &&& self.well_formed()
        &&& unknown_fields::<HeartbeatAck>(self.unknown, depth)
    }
}

/// Reading the `device_id` field as `b` writes it merges it into `m`.
proof fn lemma_heartbeat_ack_read_device_id(m: HeartbeatAckModel, b: HeartbeatAckModel, rest: Seq<u8>, depth: nat)
    requires
        bytes_field(1, encode_utf8(b.device_id)).len() <= size_limit(),
    ensures
        merge_message::<HeartbeatAck>(m, bytes_field(1, encode_utf8(b.device_id)) + rest, depth) == merge_message::<HeartbeatAck>(
            HeartbeatAckModel { device_id: if b.device_id.len() > 0 { b.device_id } else { m.device_id }, ..m },
            rest,
            depth,
        ),
{
    let next = HeartbeatAckModel { device_id: if b.device_id.len() > 0 { b.device_id } else { m.device_id }, ..m };
    reveal(HeartbeatAckModel::apply);
    encode_utf8_decode_utf8(b.device_id);
    encode_utf8_valid_utf8(b.device_id);
    lemma_merge_bytes_field::<HeartbeatAck>(m, 1, encode_utf8(b.device_id), rest, next, depth);
}

/// Reading the `received_timestamp` field as `b` writes it merges it into `m`.
proof fn lemma_heartbeat_ack_read_received_timestamp(m: HeartbeatAckModel, b: HeartbeatAckModel, rest: Seq<u8>, depth: nat)
    requires
        varint_field(2, b.received_timestamp).len() <= size_limit(),
    ensures
        merge_message::<HeartbeatAck>(m, varint_field(2, b.received_timestamp) + rest, depth) == merge_message::<HeartbeatAck>(
            HeartbeatAckModel { received_timestamp: if b.received_timestamp != 0 { b.received_timestamp } else { m.received_timestamp }, ..m },
            rest,
            depth,
        ),
{
    let next = HeartbeatAckModel { received_timestamp: if b.received_timestamp != 0 { b.received_timestamp } else { m.received_timestamp }, ..m };
    reveal(HeartbeatAckModel::apply);
    lemma_merge_varint_field::<HeartbeatAck>(m, 2, b.received_timestamp, rest, next, depth);
}

/// Reading the `sequence_number` field as `b` writes it merges it into `m`.
proof fn lemma_heartbeat_ack_read_sequence_number(m: HeartbeatAckModel, b: HeartbeatAckModel, rest: Seq<u8>, depth: nat)
    requires
        varint_field(3, b.sequence_number as u64).len() <= size_limit(),
    ensures
        merge_message::<HeartbeatAck>(m, varint_field(3, b.sequence_number as u64) + rest, depth) == merge_message::<HeartbeatAck>(
            HeartbeatAckModel { sequence_number: if b.sequence_number != 0 { b.sequence_number } else { m.sequence_number }, ..m },
            rest,
            depth,
        ),
{
    let next = HeartbeatAckModel { sequence_number: if b.sequence_number != 0 { b.sequence_number } else { m.sequence_number }, ..m };
    reveal(HeartbeatAckModel::apply);
    lemma_merge_varint_field::<HeartbeatAck>(m, 3, b.sequence_number as u64, rest, next, depth);
}

/// Reading the unknown fields as `b` writes them adds them to those of `m`.
proof fn lemma_heartbeat_ack_read_unknown(m: HeartbeatAckModel, b: HeartbeatAckModel, rest: Seq<u8>, depth: nat)
    requires
        b.unknown.len() <= size_limit(),
        b.well_formed_at(depth),
    ensures
        merge_message::<HeartbeatAck>(m, b.unknown + rest, depth) == merge_message::<HeartbeatAck>(
            HeartbeatAckModel { unknown: m.unknown + b.unknown, ..m },
            rest,
            depth,
        ),
{
    lemma_merge_unknown::<HeartbeatAck>(m, b.unknown, rest, depth);
}

/// Reading the wire form of `b` into `a`, with `depth` levels of nesting left,
/// gives `b` merged into `a`.
pub proof fn lemma_heartbeat_ack_merge_wire(a: HeartbeatAckModel, b: HeartbeatAckModel, depth: nat)
    requires
        b.encode().len() <= size_limit(),
        b.well_formed_at(depth),
    ensures
        merge_message::<HeartbeatAck>(a, b.encode(), depth) == Some(a.merge(b)),
{
    let c1 = bytes_field(1, encode_utf8(b.device_id));
    let c2 = varint_field(2, b.received_timestamp);
    let c3 = varint_field(3, b.sequence_number as u64);
    let c4 = b.unknown;
    assert(b.encode() == c1 + c2 + c3 + c4) by {
        reveal(HeartbeatAckModel::encode);
    }
    let m0 = a;
    let m1 = HeartbeatAckModel { device_id: if b.device_id.len() > 0 { b.device_id } else { m0.device_id }, ..m0 };
    lemma_heartbeat_ack_read_device_id(m0, b, Seq::empty(), depth);
    assert(c1 + Seq::empty() =~= c1);
    lemma_merge_nothing::<HeartbeatAck>(m1, depth);
    let m2 = HeartbeatAckModel { received_timestamp: if b.received_timestamp != 0 { b.received_timestamp } else { m1.received_timestamp }, ..m1 };
    lemma_heartbeat_ack_read_received_timestamp(m1, b, Seq::empty(), depth);
    assert(c2 + Seq::empty() =~= c2);
    lemma_merge_nothing::<HeartbeatAck>(m2, depth);
    lemma_merge_concat::<HeartbeatAck>(a, c1, c2, depth);
    let m3 = HeartbeatAckModel { sequence_number: if b.sequence_number != 0 { b.sequence_number } else { m2.sequence_number }, ..m2 };
    lemma_heartbeat_ack_read_sequence_number(m2, b, Seq::empty(), depth);
    assert(c3 + Seq::empty() =~= c3);
    lemma_merge_nothing::<HeartbeatAck>(m3, depth);
    lemma_merge_concat::<HeartbeatAck>(a, c1 + c2, c3, depth);
    let m4 = HeartbeatAckModel { unknown: m3.unknown + b.unknown, ..m3 };
    lemma_heartbeat_ack_read_unknown(m3, b, Seq::empty(), depth);
    assert(c4 + Seq::empty() =~= c4);
    lemma_merge_nothing::<HeartbeatAck>(m4, depth);
    lemma_merge_concat::<HeartbeatAck>(a, c1 + c2 + c3, c4, depth);
    assert(m4 == a.merge(b)) by {
        reveal(HeartbeatAckModel::merge);
    }
}

/// Merging the empty message changes nothing.
pub proof fn lemma_heartbeat_ack_merge_empty(a: HeartbeatAckModel)
    ensures
        a.merge(HeartbeatAckModel::empty()) == a,
{
    reveal(HeartbeatAckModel::merge);
    assert(a.unknown + Seq::empty() =~= a.unknown);
    assert(a.merge(HeartbeatAckModel::empty()) =~= a);
}

/// Merging a message into the empty one gives that message.
pub proof fn lemma_heartbeat_ack_empty_merge(b: HeartbeatAckModel)
    ensures
        HeartbeatAckModel::empty().merge(b) == b,
{
    reveal(HeartbeatAckModel::merge);
    assert(b.device_id.len() == 0 ==> b.device_id =~= Seq::<char>::empty());
    assert(Seq::empty() + b.unknown =~= b.unknown);
    assert(HeartbeatAckModel::empty().merge(b) =~= b);
}

/// Writing a message out and reading it back, with `depth` levels of
/// nesting left (`group_depth_limit()` for a message read on its own),
/// gives the same message.
pub proof fn lemma_heartbeat_ack_roundtrip(m: HeartbeatAckModel, depth: nat)
    requires
        m.encode().len() <= size_limit(),
        m.well_formed_at(depth),
    ensures
        merge_message::<HeartbeatAck>(HeartbeatAckModel::empty(), m.encode(), depth) == Some(m),
{
    lemma_heartbeat_ack_merge_wire(HeartbeatAckModel::empty(), m, depth);
    lemma_heartbeat_ack_empty_merge(m);
}

/// Reading two encoded messages written one after the other, with `depth`
/// levels of nesting left, gives the second merged into the first.
pub proof fn lemma_heartbeat_ack_concat(a: HeartbeatAckModel, b: HeartbeatAckModel, depth: nat)
    requires
        a.encode().len() <= size_limit(),
        b.encode().len() <= size_limit(),
        a.well_formed_at(depth),
        b.well_formed_at(depth),
    ensures
        merge_message::<HeartbeatAck>(HeartbeatAckModel::empty(), a.encode() + b.encode(), depth) == Some(a.merge(b)),
{
    lemma_heartbeat_ack_roundtrip(a, depth);
    lemma_merge_concat::<HeartbeatAck>(HeartbeatAckModel::empty(), a.encode(), b.encode(), depth);
    lemma_heartbeat_ack_merge_wire(a, b, depth);
}

/// Merging two well-formed messages gives a well-formed message.
pub proof fn lemma_heartbeat_ack_merge_well_formed(a: HeartbeatAckModel, b: HeartbeatAckModel)
    requires
        a.well_formed(),
        b.well_formed(),
    ensures
        a.merge(b).well_formed(),
{
    reveal(HeartbeatAckModel::merge);
    lemma_unknown_fields_concat::<HeartbeatAck>(a.unknown, b.unknown, group_depth_limit());
}

/// Reading one whole field into a well-formed message keeps it well formed.
proof fn lemma_heartbeat_ack_apply_well_formed(m: HeartbeatAckModel, field: nat, value: WireValue, raw: Seq<u8>, depth: nat)
    requires
        m.well_formed(),
        depth <= group_depth_limit(),
        decode_field(raw, depth) == Some((field, value, raw.len())),
        m.apply(field, value, raw, depth) is Some,
    ensures
        m.apply(field, value, raw, depth)->0.well_formed(),
{
    reveal(HeartbeatAckModel::apply);
    if HeartbeatAckModel::keeps_unknown(field, value) {
        lemma_decode_field_deeper(raw, depth, group_depth_limit());
        lemma_unknown_field::<HeartbeatAck>(raw, field, value, group_depth_limit());
        lemma_unknown_fields_concat::<HeartbeatAck>(m.unknown, raw, group_depth_limit());
    }
}

/// Reading whole fields into a well-formed message, with at most
/// `group_depth_limit()` levels of nesting left, keeps it well formed.
pub proof fn lemma_heartbeat_ack_parse_well_formed(m: HeartbeatAckModel, s: Seq<u8>, depth: nat)
    requires
        m.well_formed(),
        depth <= group_depth_limit(),
        merge_message::<HeartbeatAck>(m, s, depth) is Some,
    ensures
        merge_message::<HeartbeatAck>(m, s, depth)->0.well_formed(),
{
    assert forall|x: HeartbeatAckModel, field: nat, value: WireValue, raw: Seq<u8>|
        x.well_formed() && decode_field(raw, depth) == Some((field, value, raw.len())) && #[trigger] HeartbeatAck::apply_wire(
            x,
            field,
            value,
            raw,
            depth,
        ) is Some implies HeartbeatAck::apply_wire(x, field, value, raw, depth)->0.well_formed() by {
        lemma_heartbeat_ack_apply_well_formed(x, field, value, raw, depth);
    }
    lemma_merge_preserves::<HeartbeatAck>(m, s, |x: HeartbeatAckModel| x.well_formed(), depth);
}

/// The answer to a `Heartbeat`.
pub struct HeartbeatAck {
    device_id: String,
    received_timestamp: u64,
    sequence_number: u32,
    unknown: HeartbeatAckUnknown,
}

impl View for HeartbeatAck {
    type V = HeartbeatAckModel;

    closed spec fn view(&self) -> HeartbeatAckModel {
        HeartbeatAckModel {
            device_id: self.device_id@,
            received_timestamp: self.received_timestamp,
            sequence_number: self.sequence_number,
            unknown: self.unknown@,
        }
    }
}

/// The unknown fields of a `HeartbeatAck`: whole fields it does not read, as they
/// came, in order.
struct HeartbeatAckUnknown {
    bytes: Vec<u8>,
}

impl View for HeartbeatAckUnknown {
    type V = Seq<u8>;

    closed spec fn view(&self) -> Seq<u8> {
        if unknown_run(self.bytes@, HeartbeatAckModel::keeps(), group_depth_limit()) {
            self.bytes@
        } else {
            Seq::empty()
        }
    }
}

impl HeartbeatAckUnknown {
    #[verifier::type_invariant]
    closed spec fn whole(self) -> bool {
        unknown_run(self.bytes@, HeartbeatAckModel::keeps(), group_depth_limit())
    }

    fn new() -> (r: Self)
        ensures
            r@ == Seq::<u8>::empty(),
    {
        proof {
            lemma_unknown_run_empty(HeartbeatAckModel::keeps(), group_depth_limit());
        }
        HeartbeatAckUnknown { bytes: Vec::new() }
    }

    /// Adds one whole field that the message does not read.
    fn push_field(&mut self, raw: &[u8], Ghost(field): Ghost<nat>, Ghost(value): Ghost<WireValue>)
        requires
            decode_field(raw@, group_depth_limit()) == Some((field, value, raw@.len())),
            HeartbeatAckModel::keeps_unknown(field, value),
        ensures
            final(self)@ == old(self)@ + raw@,
    {
        proof {
            use_type_invariant(&*self);
            lemma_unknown_run_field(raw@, field, value, HeartbeatAckModel::keeps(), group_depth_limit());
            lemma_unknown_run_concat(self.bytes@, raw@, HeartbeatAckModel::keeps(), group_depth_limit());
            lemma_unknown_run_empty(HeartbeatAckModel::keeps(), group_depth_limit());
        }
        let mut bytes = Vec::new();
        std::mem::swap(&mut bytes, &mut self.bytes);
        append_bytes(&mut bytes, raw);
        self.bytes = bytes;
    }

    /// Adds the unknown fields of another message of the same kind.
    fn append(&mut self, other: &Self)
        ensures
            final(self)@ == old(self)@ + other@,
    {
        proof {
            use_type_invariant(&*self);
            use_type_invariant(other);
            lemma_unknown_run_concat(self.bytes@, other.bytes@, HeartbeatAckModel::keeps(), group_depth_limit());
            lemma_unknown_run_empty(HeartbeatAckModel::keeps(), group_depth_limit());
        }
        let mut bytes = Vec::new();
        std::mem::swap(&mut bytes, &mut self.bytes);
        append_bytes(&mut bytes, other.bytes.as_slice());
        self.bytes = bytes;
    }

    fn as_slice(&self) -> (r: &[u8])
        ensures
            r@ == self@,
    {
        proof {
            use_type_invariant(self);
        }
        self.bytes.as_slice()
    }

    fn copy(&self) -> (r: Self)
        ensures
            r@ == self@,
    {
        proof {
            use_type_invariant(self);
        }
        HeartbeatAckUnknown { bytes: copy_bytes(self.bytes.as_slice()) }
    }
}

impl WireMessage for HeartbeatAck {
    open spec fn apply_wire(message: HeartbeatAckModel, field: nat, value: WireValue, raw: Seq<u8>, depth: nat) -> Option<HeartbeatAckModel> {
        message.apply(field, value, raw, depth)
    }

    open spec fn keeps_unknown(field: nat, value: WireValue) -> bool {
        HeartbeatAckModel::keeps_unknown(field, value)
    }

    open spec fn add_unknown(message: HeartbeatAckModel, raw: Seq<u8>) -> HeartbeatAckModel {
        HeartbeatAckModel { unknown: message.unknown + raw, ..message }
    }

    proof fn lemma_apply_unknown(message: HeartbeatAckModel, field: nat, value: WireValue, raw: Seq<u8>, depth: nat) {
        reveal(HeartbeatAckModel::apply);
    }

    proof fn lemma_add_unknown(message: HeartbeatAckModel, a: Seq<u8>, b: Seq<u8>) {
        assert(message.unknown + a + b =~= message.unknown + (a + b));
        assert(message.unknown + Seq::<u8>::empty() =~= message.unknown);
    }

    fn apply_field(
        &mut self,
        data: &[u8],
        field: u32,
        value: FieldValue,
        start: usize,
        end: usize,
        depth: u32,
    ) -> (ok: bool) {
        proof {
            reveal(HeartbeatAckModel::apply);
        }
        if field == 1 {
            if let FieldValue::Delimited(from, to) = value {
                match proto_string(&data[from..to]) {
                    Some(text) => self.device_id = text,
                    None => return false,
                }
                return true;
            }
        } else if field == 2 {
            if let FieldValue::Varint(v) = value {
                self.received_timestamp = v;
                return true;
            }
        } else if field == 3 {
            if let FieldValue::Varint(v) = value {
                self.sequence_number = to_u32(v);
                return true;
            }
        }
        proof {
            lemma_decode_field_deeper(data@.subrange(start as int, end as int), depth as nat, group_depth_limit());
        }
        self.unknown.push_field(&data[start..end], Ghost(field as nat), Ghost(value.wire(data@)));
        true
    }
}

/// The content of every `HeartbeatAck` is well formed.
pub proof fn lemma_heartbeat_ack_well_formed(m: HeartbeatAck)
    ensures
        m@.well_formed(),
{
    lemma_unknown_run_fields::<HeartbeatAck>(m.unknown.bytes@, HeartbeatAckModel::keeps(), group_depth_limit());
}

impl HeartbeatAck {
    /// A message with every field at its default.
    pub fn new() -> (r: Self)
        ensures
            r@ == HeartbeatAckModel::empty(),
    {
        let r = HeartbeatAck {
            device_id: String::new(),
            received_timestamp: 0,
            sequence_number: 0,
            unknown: HeartbeatAckUnknown::new(),
        };
        r
    }

    /// Reads a message from its wire form.
    pub fn parse(data: &[u8]) -> (r: Result<Self, protobuf::ParseError>)
        ensures
            match merge_message::<HeartbeatAck>(HeartbeatAckModel::empty(), data@, group_depth_limit()) {
                Some(m) => r matches Ok(msg) && msg@ == m && m.well_formed(),
                None => r is Err,
            },
    {
        proof {
            if merge_message::<HeartbeatAck>(HeartbeatAckModel::empty(), data@, group_depth_limit()) is Some {
                lemma_heartbeat_ack_parse_well_formed(HeartbeatAckModel::empty(), data@, group_depth_limit());
            }
        }
        let mut msg = Self::new();
        if merge_bytes(&mut msg, data, 100) {
            Ok(msg)
        } else {
            Err(parse_error())
        }
    }

    /// Same as `parse`: the message has no required fields.
    pub fn parse_dont_enforce_required(data: &[u8]) -> (r: Result<Self, protobuf::ParseError>)
        ensures
            match merge_message::<HeartbeatAck>(HeartbeatAckModel::empty(), data@, group_depth_limit()) {
                Some(m) => r matches Ok(msg) && msg@ == m && m.well_formed(),
                None => r is Err,
            },
    {
        Self::parse(data)
    }

    /// Resets every field to its default.
    pub fn clear(&mut self)
        ensures
            final(self)@ == HeartbeatAckModel::empty(),
    {
        *self = HeartbeatAck::new();
    }

    /// Replaces the message by the one `data` encodes; on an error what the
    /// message then holds is unspecified.
    pub fn clear_and_parse(&mut self, data: &[u8]) -> (r: Result<(), protobuf::ParseError>)
        ensures
            match merge_message::<HeartbeatAck>(HeartbeatAckModel::empty(), data@, group_depth_limit()) {
                Some(m) => r is Ok && final(self)@ == m && m.well_formed(),
                None => r is Err,
            },
    {
        proof {
            if merge_message::<HeartbeatAck>(HeartbeatAckModel::empty(), data@, group_depth_limit()) is Some {
                lemma_heartbeat_ack_parse_well_formed(HeartbeatAckModel::empty(), data@, group_depth_limit());
            }
        }
        *self = HeartbeatAck::new();
        if merge_bytes(self, data, 100) {
            Ok(())
        } else {
            Err(parse_error())
        }
    }

    /// Same as `clear_and_parse`: the message has no required fields; on an error what the
    /// message then holds is unspecified.
    pub fn clear_and_parse_dont_enforce_required(&mut self, data: &[u8]) -> (r: Result<(), protobuf::ParseError>)
        ensures
            match merge_message::<HeartbeatAck>(HeartbeatAckModel::empty(), data@, group_depth_limit()) {
                Some(m) => r is Ok && final(self)@ == m && m.well_formed(),
                None => r is Err,
            },
    {
        self.clear_and_parse(data)
    }

    /// Makes this message a copy of `src`.
    pub fn copy_from(&mut self, src: HeartbeatAckView<'_>)
        ensures
            final(self)@ == src@,
    {
        *self = src.to_owned();
    }

    /// Moves the content of `src` here, leaving `src` empty.
    pub fn take_from(&mut self, src: &mut HeartbeatAck)
        ensures
            final(self)@ == old(src)@,
            final(src)@ == HeartbeatAckModel::empty(),
    {
        let mut taken = HeartbeatAck::new();
        std::mem::swap(&mut taken, src);
        *self = taken;
    }

    /// Merges `src` into this message (see `merge` on the model).
    pub fn merge_from(&mut self, src: HeartbeatAckView<'_>)
        ensures
            final(self)@ == old(self)@.merge(src@),
    {
        match src.msg {
            Some(other) => self.merge_fields_from(other),
            None => {
                proof {
                    lemma_heartbeat_ack_merge_empty(self@);
                }
            },
        }
    }

    fn merge_fields_from(&mut self, other: &HeartbeatAck)
        ensures
            final(self)@ == old(self)@.merge(other@),
    {
        proof {
            reveal(HeartbeatAckModel::merge);
        }
        let ghost start = self@;
        if !other.device_id.as_str().is_empty() {
            self.device_id = other.device_id.clone();
        }
        if other.received_timestamp != 0 {
            self.received_timestamp = other.received_timestamp;
        }
        if other.sequence_number != 0 {
            self.sequence_number = other.sequence_number;
        }
        self.unknown.append(&other.unknown);
        assert(self@ =~= start.merge(other@));
    }

    /// Appends the wire form to `buf`.
    pub fn write_to(&self, buf: &mut Vec<u8>)
        ensures
            final(buf)@ == old(buf)@ + self@.encode(),
    {
        let ghost start = buf@;
        let ghost c1 = bytes_field(1, encode_utf8(self@.device_id));
        let ghost c2 = varint_field(2, self@.received_timestamp);
        let ghost c3 = varint_field(3, self@.sequence_number as u64);
        let ghost c4 = self@.unknown;
        write_bytes_field(buf, 1, self.device_id.as_str().as_bytes());
        let ghost mut written = c1;
        assert(buf@ == start + written);
        write_varint_field(buf, 2, self.received_timestamp);
        proof {
            lemma_concat_associative(start, written, c2);
            written = written + c2;
        }
        assert(buf@ == start + written);
        write_varint_field(buf, 3, self.sequence_number as u64);
        proof {
            lemma_concat_associative(start, written, c3);
            written = written + c3;
        }
        assert(buf@ == start + written);
        append_bytes(buf, self.unknown.as_slice());
        proof {
            lemma_concat_associative(start, written, c4);
            written = written + c4;
        }
        assert(buf@ == start + written);
        assert(self@.encode() == written) by {
            assert(written == c1 + c2 + c3 + c4);
            reveal(HeartbeatAckModel::encode);
        }
    }

    /// The wire form, refused when it is longer than `i32::MAX` bytes. The
    /// message is well formed, so the wire form reads back as the message.
    pub fn serialize(&self) -> (r: Result<Vec<u8>, protobuf::SerializeError>)
        ensures
            match r {
                Ok(bytes) => bytes@ == self@.encode() && self@.encode().len() <= 0x7fff_ffff,
                Err(_) => self@.encode().len() > 0x7fff_ffff,
            },
            self@.well_formed(),
            self@.encode().len() <= size_limit() ==> merge_message::<HeartbeatAck>(
                HeartbeatAckModel::empty(),
                self@.encode(),
                group_depth_limit(),
            ) == Some(self@),
    {
        proof {
            lemma_heartbeat_ack_well_formed(*self);
            if self@.encode().len() <= size_limit() {
                lemma_heartbeat_ack_roundtrip(self@, group_depth_limit());
            }
        }
        let mut buf = Vec::new();
        self.write_to(&mut buf);
        assert(buf@ =~= self@.encode());
        if buf.len() > 0x7fff_ffff {
            return Err(serialize_error());
        }
        Ok(buf)
    }

    pub fn as_view(&self) -> (r: HeartbeatAckView<'_>)
        ensures
            r@ == self@,
    {
        HeartbeatAckView::new(self)
    }

    pub fn as_mut(&mut self) -> (r: HeartbeatAckMut<'_>)
        ensures
            r@ == old(self)@,
            *final(self) == *final(r.msg),
    {
        HeartbeatAckMut::new(self)
    }

    pub fn device_id(&self) -> (r: &str)
        ensures
            r@ == self@.device_id,
    {
        self.device_id.as_str()
    }

    pub fn set_device_id(&mut self, val: &str)
        ensures
            final(self)@ == (HeartbeatAckModel { device_id: val@, ..old(self)@ }),
    {
        self.device_id = val.to_owned();
    }

    pub fn received_timestamp(&self) -> (r: u64)
        ensures
            r == self@.received_timestamp,
    {
        self.received_timestamp
    }

    pub fn set_received_timestamp(&mut self, val: u64)
        ensures
            final(self)@ == (HeartbeatAckModel { received_timestamp: val, ..old(self)@ }),
    {
        self.received_timestamp = val;
    }

    pub fn sequence_number(&self) -> (r: u32)
        ensures
            r == self@.sequence_number,
    {
        self.sequence_number
    }

    pub fn set_sequence_number(&mut self, val: u32)
        ensures
            final(self)@ == (HeartbeatAckModel { sequence_number: val, ..old(self)@ }),
    {
        self.sequence_number = val;
    }
}

impl Clone for HeartbeatAck {
    fn clone(&self) -> (r: Self)
        ensures
            r@ == self@,
    {
        let r = HeartbeatAck {
            device_id: self.device_id.clone(),
            received_timestamp: self.received_timestamp,
            sequence_number: self.sequence_number,
            unknown: self.unknown.copy(),
        };
        r
    }
}

impl Default for HeartbeatAck {
    fn default() -> (r: Self)
        ensures
            r@ == HeartbeatAckModel::empty(),
    {
        Self::new()
    }
}

/// Read access to a `HeartbeatAck`; the default view reads as the empty message.
#[derive(Clone, Copy)]
pub struct HeartbeatAckView<'msg> {
    msg: Option<&'msg HeartbeatAck>,
}

impl<'msg> View for HeartbeatAckView<'msg> {
    type V = HeartbeatAckModel;

    closed spec fn view(&self) -> HeartbeatAckModel {
        match self.msg {
            Some(m) => m@,
            None => HeartbeatAckModel::empty(),
        }
    }
}

impl<'msg> HeartbeatAckView<'msg> {
    pub fn new(msg: &'msg HeartbeatAck) -> (r: Self)
        ensures
            r@ == msg@,
    {
        HeartbeatAckView { msg: Some(msg) }
    }

    /// An owned copy of the message.
    pub fn to_owned(&self) -> (r: HeartbeatAck)
        ensures
            r@ == self@,
    {
        match self.msg {
            Some(m) => m.clone(),
            None => HeartbeatAck::new(),
        }
    }

    /// The wire form, refused when it is longer than `i32::MAX` bytes. The
    /// message is well formed, so the wire form reads back as the message.
    pub fn serialize(&self) -> (r: Result<Vec<u8>, protobuf::SerializeError>)
        ensures
            match r {
                Ok(bytes) => bytes@ == self@.encode() && self@.encode().len() <= 0x7fff_ffff,
                Err(_) => self@.encode().len() > 0x7fff_ffff,
            },
            self@.well_formed(),
            self@.encode().len() <= size_limit() ==> merge_message::<HeartbeatAck>(
                HeartbeatAckModel::empty(),
                self@.encode(),
                group_depth_limit(),
            ) == Some(self@),
    {
        match self.msg {
            Some(m) => m.serialize(),
            None => HeartbeatAck::new().serialize(),
        }
    }

    pub fn device_id(self) -> (r: &'msg str)
        ensures
            r@ == self@.device_id,
    {
        match self.msg {
            Some(m) => m.device_id.as_str(),
            None => {
                proof {
                    reveal_strlit("");
                }
                ""
            },
        }
    }

    pub fn received_timestamp(self) -> (r: u64)
        ensures
            r == self@.received_timestamp,
    {
        match self.msg {
            Some(m) => m.received_timestamp,
            None => 0,
        }
    }

    pub fn sequence_number(self) -> (r: u32)
        ensures
            r == self@.sequence_number,
    {
        match self.msg {
            Some(m) => m.sequence_number,
            None => 0,
        }
    }
}

impl<'msg> Default for HeartbeatAckView<'msg> {
    fn default() -> (r: Self)
        ensures
            r@ == HeartbeatAckModel::empty(),
    {
        HeartbeatAckView { msg: None }
    }
}

/// Write access to a `HeartbeatAck` held elsewhere.
pub struct HeartbeatAckMut<'msg> {
    /// The message written through this handle.
    pub msg: &'msg mut HeartbeatAck,
}

impl<'msg> View for HeartbeatAckMut<'msg> {
    type V = HeartbeatAckModel;

    open spec fn view(&self) -> HeartbeatAckModel {
        (*self.msg)@
    }
}

impl<'msg> HeartbeatAckMut<'msg> {
    pub fn new(msg: &'msg mut HeartbeatAck) -> (r: Self)
        ensures
            r@ == old(msg)@,
            *final(msg) == *final(r.msg),
    {
        HeartbeatAckMut { msg }
    }

    /// An owned copy of the message.
    pub fn to_owned(&self) -> (r: HeartbeatAck)
        ensures
            r@ == self@,
    {
        self.msg.clone()
    }

    pub fn as_view(&self) -> (r: HeartbeatAckView<'_>)
        ensures
            r@ == self@,
    {
        HeartbeatAckView::new(self.msg)
    }

    /// The wire form, refused when it is longer than `i32::MAX` bytes. The
    /// message is well formed, so the wire form reads back as the message.
    pub fn serialize(&self) -> (r: Result<Vec<u8>, protobuf::SerializeError>)
        ensures
            match r {
                Ok(bytes) => bytes@ == self@.encode() && self@.encode().len() <= 0x7fff_ffff,
                Err(_) => self@.encode().len() > 0x7fff_ffff,
            },
            self@.well_formed(),
            self@.encode().len() <= size_limit() ==> merge_message::<HeartbeatAck>(
                HeartbeatAckModel::empty(),
                self@.encode(),
                group_depth_limit(),
            ) == Some(self@),
    {
        self.msg.serialize()
    }

    /// Resets every field to its default.
    pub fn clear(&mut self)
        ensures
            final(self)@ == HeartbeatAckModel::empty(),
            *final(final(self).msg) == *final(old(self).msg),
    {
        self.msg.clear();
    }

    /// Replaces the message by the one `data` encodes.
    pub fn clear_and_parse(&mut self, data: &[u8]) -> (r: Result<(), protobuf::ParseError>)
        ensures
            match merge_message::<HeartbeatAck>(HeartbeatAckModel::empty(), data@, group_depth_limit()) {
                Some(m) => r is Ok && final(self)@ == m && m.well_formed(),
                None => r is Err,
            },
            *final(final(self).msg) == *final(old(self).msg),
    {
        self.msg.clear_and_parse(data)
    }

    /// Replaces the message by the one `data` encodes.
    pub fn clear_and_parse_dont_enforce_required(&mut self, data: &[u8]) -> (r: Result<(), protobuf::ParseError>)
        ensures
            match merge_message::<HeartbeatAck>(HeartbeatAckModel::empty(), data@, group_depth_limit()) {
                Some(m) => r is Ok && final(self)@ == m && m.well_formed(),
                None => r is Err,
            },
            *final(final(self).msg) == *final(old(self).msg),
    {
        self.msg.clear_and_parse_dont_enforce_required(data)
    }

    /// Makes the message a copy of `src`.
    pub fn copy_from(&mut self, src: HeartbeatAckView<'_>)
        ensures
            final(self)@ == src@,
            *final(final(self).msg) == *final(old(self).msg),
    {
        self.msg.copy_from(src);
    }

    /// Merges `src` into the message.
    pub fn merge_from(&mut self, src: HeartbeatAckView<'_>)
        ensures
            final(self)@ == old(self)@.merge(src@),
            *final(final(self).msg) == *final(old(self).msg),
    {
        self.msg.merge_from(src);
    }

    pub fn device_id(&self) -> (r: &str)
        ensures
            r@ == self@.device_id,
    {
        self.msg.device_id()
    }

    pub fn set_device_id(&mut self, val: &str)
        ensures
            final(self)@ == (HeartbeatAckModel { device_id: val@, ..old(self)@ }),
            *final(final(self).msg) == *final(old(self).msg),
    {
        self.msg.set_device_id(val);
    }

    pub fn received_timestamp(&self) -> (r: u64)
        ensures
            r == self@.received_timestamp,
    {
        self.msg.received_timestamp()
    }

    pub fn set_received_timestamp(&mut self, val: u64)
        ensures
            final(self)@ == (HeartbeatAckModel { received_timestamp: val, ..old(self)@ }),
            *final(final(self).msg) == *final(old(self).msg),
    {
        self.msg.set_received_timestamp(val);
    }

    pub fn sequence_number(&self) -> (r: u32)
        ensures
            r == self@.sequence_number,
    {
        self.msg.sequence_number()
    }

    pub fn set_sequence_number(&mut self, val: u32)
        ensures
            final(self)@ == (HeartbeatAckModel { sequence_number: val, ..old(self)@ }),
            *final(final(self).msg) == *final(old(self).msg),
    {
        self.msg.set_sequence_number(val);
    }
}

/// The content of a `ProtocolVersion`.
pub struct ProtocolVersionModel {
    pub major: u32,
    pub minor: u32,
    pub patch: u32,
    pub build_info: Seq<char>,
    /// The fields read but not understood, as they came, in order.
    pub unknown: Seq<u8>,
}

impl ProtocolVersionModel {
    /// The message with every field at its default.
    pub open spec fn empty() -> Self {
        ProtocolVersionModel {
            major: 0,
            minor: 0,
            patch: 0,
            build_info: Seq::empty(),
            unknown: Seq::empty(),
        }
    }

    /// The wire form: fields in number order, defaults and absent
    /// sub-messages left out, then the unknown fields as they came.
    #[verifier::opaque]
    pub open spec fn encode(self) -> Seq<u8> {
        varint_field(1, self.major as u64)
            + varint_field(2, self.minor as u64)
            + varint_field(3, self.patch as u64)
            + bytes_field(4, encode_utf8(self.build_info))
            + self.unknown
    }

    /// Whether a field is kept, as it came, among the unknown fields: its
    /// number is not one of this message's, or it comes with another wire
    /// type than its field is written with.
    pub open spec fn keeps_unknown(field: nat, value: WireValue) -> bool {
        if field == 1 {
            !(value is Varint)
        } else if field == 2 {
            !(value is Varint)
        } else if field == 3 {
            !(value is Varint)
        } else if field == 4 {
            !(value is Delimited)
        } else {
            true
        }
    }

    /// `keeps_unknown` as a function.
    pub open spec fn keeps() -> spec_fn(nat, WireValue) -> bool {
        |field: nat, value: WireValue| ProtocolVersionModel::keeps_unknown(field, value)
    }

    /// How one field of the wire form changes the message; `raw` is the
    /// field as it came. `None` when the field's content is malformed.
    #[verifier::opaque]
    pub open spec fn apply(self, field: nat, value: WireValue, raw: Seq<u8>, depth: nat) -> Option<Self> {
        if Self::keeps_unknown(field, value) {
            Some(ProtocolVersionModel { unknown: self.unknown + raw, ..self })
        } else if field == 1 {
            match value {
                WireValue::Varint(v) => Some(ProtocolVersionModel { major: wire_u32(v), ..self }),
                _ => Some(self),
            }
        } else if field == 2 {
            match value {
                WireValue::Varint(v) => Some(ProtocolVersionModel { minor: wire_u32(v), ..self }),
                _ => Some(self),
            }
        } else if field == 3 {
            match value {
                WireValue::Varint(v) => Some(ProtocolVersionModel { patch: wire_u32(v), ..self }),
                _ => Some(self),
            }
        } else if field == 4 {
            match value {
                WireValue::Delimited(b) => if valid_utf8(b) {
                    Some(ProtocolVersionModel { build_info: decode_utf8(b), ..self })
                } else {
                    None
                },
                _ => Some(self),
            }
        } else {
            Some(self)
        }
    }

    /// `other` merged into this message, as protobuf merges: a scalar, string
    /// or bytes field set in `other` replaces the one here, repeated fields
    /// are appended, sub-messages are merged, map entries inserted and
    /// unknown fields appended.
    #[verifier::opaque]
    pub open spec fn merge(self, other: Self) -> Self {
        ProtocolVersionModel {
            major: if other.major != 0 { other.major } else { self.major },
            minor: if other.minor != 0 { other.minor } else { self.minor },
            patch: if other.patch != 0 { other.patch } else { self.patch },
            build_info: if other.build_info.len() > 0 { other.build_info } else { self.build_info },
            unknown: self.unknown + other.unknown,
        }
    }

    /// What writing the message out and reading it back relies on: the
    /// unknown fields are whole fields this message does not read, and
    /// the same holds of every sub-message.
    pub open spec fn well_formed(self) -> bool {
        &&& unknown_fields::<ProtocolVersion>(self.unknown, group_depth_limit())
    }

    /// What reading the wire form back with `depth` levels of nesting left
    /// relies on: the message is well formed, its unknown fields read as
    /// whole fields with `depth` levels, and each sub-message reads back
    /// with one level less.
    pub open spec fn well_formed_at(self, depth: nat) -> bool {
        &&& self.well_formed()
        &&& unknown_fields::<ProtocolVersion>(self.unknown, depth)
    }
}

/// Reading the `major` field as `b` writes it merges it into `m`.
proof fn lemma_protocol_version_read_major(m: ProtocolVersionModel, b: ProtocolVersionModel, rest: Seq<u8>, depth: nat)
    requires
        varint_field(1, b.major as u64).len() <= size_limit(),
    ensures
        merge_message::<ProtocolVersion>(m, varint_field(1, b.major as u64) + rest, depth) == merge_message::<ProtocolVersion>(
            ProtocolVersionModel { major: if b.major != 0 { b.major } else { m.major }, ..m },
            rest,
            depth,
        ),
{
    let next = ProtocolVersionModel { major: if b.major != 0 { b.major } else { m.major }, ..m };
    reveal(ProtocolVersionModel::apply);
    lemma_merge_varint_field::<ProtocolVersion>(m, 1, b.major as u64, rest, next, depth);
}

/// Reading the `minor` field as `b` writes it merges it into `m`.
proof fn lemma_protocol_version_read_minor(m: ProtocolVersionModel, b: ProtocolVersionModel, rest: Seq<u8>, depth: nat)
    requires
        varint_field(2, b.minor as u64).len() <= size_limit(),
    ensures
        merge_message::<ProtocolVersion>(m, varint_field(2, b.minor as u64) + rest, depth) == merge_message::<ProtocolVersion>(
            ProtocolVersionModel { minor: if b.minor != 0 { b.minor } else { m.minor }, ..m },
            rest,
            depth,
        ),
{
    let next = ProtocolVersionModel { minor: if b.minor != 0 { b.minor } else { m.minor }, ..m };
    reveal(ProtocolVersionModel::apply);
    lemma_merge_varint_field::<ProtocolVersion>(m, 2, b.minor as u64, rest, next, depth);
}

/// Reading the `patch` field as `b` writes it merges it into `m`.
proof fn lemma_protocol_version_read_patch(m: ProtocolVersionModel, b: ProtocolVersionModel, rest: Seq<u8>, depth: nat)
    requires
        varint_field(3, b.patch as u64).len() <= size_limit(),
    ensures
        merge_message::<ProtocolVersion>(m, varint_field(3, b.patch as u64) + rest, depth) == merge_message::<ProtocolVersion>(
            ProtocolVersionModel { patch: if b.patch != 0 { b.patch } else { m.patch }, ..m },
            rest,
            depth,
        ),
{
    let next = ProtocolVersionModel { patch: if b.patch != 0 { b.patch } else { m.patch }, ..m };
    reveal(ProtocolVersionModel::apply);
    lemma_merge_varint_field::<ProtocolVersion>(m, 3, b.patch as u64, rest, next, depth);
}

/// Reading the `build_info` field as `b` writes it merges it into `m`.
proof fn lemma_protocol_version_read_build_info(m: ProtocolVersionModel, b: ProtocolVersionModel, rest: Seq<u8>, depth: nat)
    requires
        bytes_field(4, encode_utf8(b.build_info)).len() <= size_limit(),
    ensures
        merge_message::<ProtocolVersion>(m, bytes_field(4, encode_utf8(b.build_info)) + rest, depth) == merge_message::<ProtocolVersion>(
            ProtocolVersionModel { build_info: if b.build_info.len() > 0 { b.build_info } else { m.build_info }, ..m },
            rest,
            depth,
        ),
{
    let next = ProtocolVersionModel { build_info: if b.build_info.len() > 0 { b.build_info } else { m.build_info }, ..m };
    reveal(ProtocolVersionModel::apply);
    encode_utf8_decode_utf8(b.build_info);
    encode_utf8_valid_utf8(b.build_info);
    lemma_merge_bytes_field::<ProtocolVersion>(m, 4, encode_utf8(b.build_info), rest, next, depth);
}

/// Reading the unknown fields as `b` writes them adds them to those of `m`.
proof fn lemma_protocol_version_read_unknown(m: ProtocolVersionModel, b: ProtocolVersionModel, rest: Seq<u8>, depth: nat)
    requires
        b.unknown.len() <= size_limit(),
        b.well_formed_at(depth),
    ensures
        merge_message::<ProtocolVersion>(m, b.unknown + rest, depth) == merge_message::<ProtocolVersion>(
            ProtocolVersionModel { unknown: m.unknown + b.unknown, ..m },
            rest,
            depth,
        ),
{
    lemma_merge_unknown::<ProtocolVersion>(m, b.unknown, rest, depth);
}

/// Reading the wire form of `b` into `a`, with `depth` levels of nesting left,
/// gives `b` merged into `a`.
pub proof fn lemma_protocol_version_merge_wire(a: ProtocolVersionModel, b: ProtocolVersionModel, depth: nat)
    requires
        b.encode().len() <= size_limit(),
        b.well_formed_at(depth),
    ensures
        merge_message::<ProtocolVersion>(a, b.encode(), depth) == Some(a.merge(b)),
{
    let c1 = varint_field(1, b.major as u64);
    let c2 = varint_field(2, b.minor as u64);
    let c3 = varint_field(3, b.patch as u64);
    let c4 = bytes_field(4, encode_utf8(b.build_info));
    let c5 = b.unknown;
    assert(b.encode() == c1 + c2 + c3 + c4 + c5) by {
        reveal(ProtocolVersionModel::encode);
    }
    let m0 = a;
    let m1 = ProtocolVersionModel { major: if b.major != 0 { b.major } else { m0.major }, ..m0 };
    lemma_protocol_version_read_major(m0, b, Seq::empty(), depth);
    assert(c1 + Seq::empty() =~= c1);
    lemma_merge_nothing::<ProtocolVersion>(m1, depth);
    let m2 = ProtocolVersionModel { minor: if b.minor != 0 { b.minor } else { m1.minor }, ..m1 };
    lemma_protocol_version_read_minor(m1, b, Seq::empty(), depth);
    assert(c2 + Seq::empty() =~= c2);
    lemma_merge_nothing::<ProtocolVersion>(m2, depth);
    lemma_merge_concat::<ProtocolVersion>(a, c1, c2, depth);
    let m3 = ProtocolVersionModel { patch: if b.patch != 0 { b.patch } else { m2.patch }, ..m2 };
    lemma_protocol_version_read_patch(m2, b, Seq::empty(), depth);
    assert(c3 + Seq::empty() =~= c3);
    lemma_merge_nothing::<ProtocolVersion>(m3, depth);
    lemma_merge_concat::<ProtocolVersion>(a, c1 + c2, c3, depth);
    let m4 = ProtocolVersionModel { build_info: if b.build_info.len() > 0 { b.build_info } else { m3.build_info }, ..m3 };
    lemma_protocol_version_read_build_info(m3, b, Seq::empty(), depth);
    assert(c4 + Seq::empty() =~= c4);
    lemma_merge_nothing::<ProtocolVersion>(m4, depth);
    lemma_merge_concat::<ProtocolVersion>(a, c1 + c2 + c3, c4, depth);
    let m5 = ProtocolVersionModel { unknown: m4.unknown + b.unknown, ..m4 };
    lemma_protocol_version_read_unknown(m4, b, Seq::empty(), depth);
    assert(c5 + Seq::empty() =~= c5);
    lemma_merge_nothing::<ProtocolVersion>(m5, depth);
    lemma_merge_concat::<ProtocolVersion>(a, c1 + c2 + c3 + c4, c5, depth);
    assert(m5 == a.merge(b)) by {
        reveal(ProtocolVersionModel::merge);
    }
}

/// Merging the empty message changes nothing.
pub proof fn lemma_protocol_version_merge_empty(a: ProtocolVersionModel)
    ensures
        a.merge(ProtocolVersionModel::empty()) == a,
{
    reveal(ProtocolVersionModel::merge);
    assert(a.unknown + Seq::empty() =~= a.unknown);
    assert(a.merge(ProtocolVersionModel::empty()) =~= a);
}

/// Merging a message into the empty one gives that message.
pub proof fn lemma_protocol_version_empty_merge(b: ProtocolVersionModel)
    ensures
        ProtocolVersionModel::empty().merge(b) == b,
{
    reveal(ProtocolVersionModel::merge);
    assert(b.build_info.len() == 0 ==> b.build_info =~= Seq::<char>::empty());
    assert(Seq::empty() + b.unknown =~= b.unknown);
    assert(ProtocolVersionModel::empty().merge(b) =~= b);
}

/// Writing a message out and reading it back, with `depth` levels of
/// nesting left (`group_depth_limit()` for a message read on its own),
/// gives the same message.
pub proof fn lemma_protocol_version_roundtrip(m: ProtocolVersionModel, depth: nat)
    requires
        m.encode().len() <= size_limit(),
        m.well_formed_at(depth),
    ensures
        merge_message::<ProtocolVersion>(ProtocolVersionModel::empty(), m.encode(), depth) == Some(m),
{
    lemma_protocol_version_merge_wire(ProtocolVersionModel::empty(), m, depth);
    lemma_protocol_version_empty_merge(m);
}

/// Reading two encoded messages written one after the other, with `depth`
/// levels of nesting left, gives the second merged into the first.
pub proof fn lemma_protocol_version_concat(a: ProtocolVersionModel, b: ProtocolVersionModel, depth: nat)
    requires
        a.encode().len() <= size_limit(),
        b.encode().len() <= size_limit(),
        a.well_formed_at(depth),
        b.well_formed_at(depth),
    ensures
        merge_message::<ProtocolVersion>(ProtocolVersionModel::empty(), a.encode() + b.encode(), depth) == Some(a.merge(b)),
{
    lemma_protocol_version_roundtrip(a, depth);
    lemma_merge_concat::<ProtocolVersion>(ProtocolVersionModel::empty(), a.encode(), b.encode(), depth);
    lemma_protocol_version_merge_wire(a, b, depth);
}

/// Merging two well-formed messages gives a well-formed message.
pub proof fn lemma_protocol_version_merge_well_formed(a: ProtocolVersionModel, b: ProtocolVersionModel)
    requires
        a.well_formed(),
        b.well_formed(),
    ensures
        a.merge(b).well_formed(),
{
    reveal(ProtocolVersionModel::merge);
    lemma_unknown_fields_concat::<ProtocolVersion>(a.unknown, b.unknown, group_depth_limit());
}

/// Reading one whole field into a well-formed message keeps it well formed.
proof fn lemma_protocol_version_apply_well_formed(m: ProtocolVersionModel, field: nat, value: WireValue, raw: Seq<u8>, depth: nat)
    requires
        m.well_formed(),
        depth <= group_depth_limit(),
        decode_field(raw, depth) == Some((field, value, raw.len())),
        m.apply(field, value, raw, depth) is Some,
    ensures
        m.apply(field, value, raw, depth)->0.well_formed(),
{
    reveal(ProtocolVersionModel::apply);
    if ProtocolVersionModel::keeps_unknown(field, value) {
        lemma_decode_field_deeper(raw, depth, group_depth_limit());
        lemma_unknown_field::<ProtocolVersion>(raw, field, value, group_depth_limit());
        lemma_unknown_fields_concat::<ProtocolVersion>(m.unknown, raw, group_depth_limit());
    }
}

/// Reading whole fields into a well-formed message, with at most
/// `group_depth_limit()` levels of nesting left, keeps it well formed.
pub proof fn lemma_protocol_version_parse_well_formed(m: ProtocolVersionModel, s: Seq<u8>, depth: nat)
    requires
        m.well_formed(),
        depth <= group_depth_limit(),
        merge_message::<ProtocolVersion>(m, s, depth) is Some,
    ensures
        merge_message::<ProtocolVersion>(m, s, depth)->0.well_formed(),
{
    assert forall|x: ProtocolVersionModel, field: nat, value: WireValue, raw: Seq<u8>|
        x.well_formed() && decode_field(raw, depth) == Some((field, value, raw.len())) && #[trigger] ProtocolVersion::apply_wire(
            x,
            field,
            value,
            raw,
            depth,
        ) is Some implies ProtocolVersion::apply_wire(x, field, value, raw, depth)->0.well_formed() by {
        lemma_protocol_version_apply_well_formed(x, field, value, raw, depth);
    }
    lemma_merge_preserves::<ProtocolVersion>(m, s, |x: ProtocolVersionModel| x.well_formed(), depth);
}

/// A protocol version: `major.minor.patch` and free-form build information.
pub struct ProtocolVersion {
    major: u32,
    minor: u32,
    patch: u32,
    build_info: String,
    unknown: ProtocolVersionUnknown,
}

impl View for ProtocolVersion {
    type V = ProtocolVersionModel;

    closed spec fn view(&self) -> ProtocolVersionModel {
        ProtocolVersionModel {
            major: self.major,
            minor: self.minor,
            patch: self.patch,
            build_info: self.build_info@,
            unknown: self.unknown@,
        }
    }
}

/// The unknown fields of a `ProtocolVersion`: whole fields it does not read, as they
/// came, in order.
struct ProtocolVersionUnknown {
    bytes: Vec<u8>,
}

impl View for ProtocolVersionUnknown {
    type V = Seq<u8>;

    closed spec fn view(&self) -> Seq<u8> {
        if unknown_run(self.bytes@, ProtocolVersionModel::keeps(), group_depth_limit()) {
            self.bytes@
        } else {
            Seq::empty()
        }
    }
}

impl ProtocolVersionUnknown {
    #[verifier::type_invariant]
    closed spec fn whole(self) -> bool {
        unknown_run(self.bytes@, ProtocolVersionModel::keeps(), group_depth_limit())
    }

    fn new() -> (r: Self)
        ensures
            r@ == Seq::<u8>::empty(),
    {
        proof {
            lemma_unknown_run_empty(ProtocolVersionModel::keeps(), group_depth_limit());
        }
        ProtocolVersionUnknown { bytes: Vec::new() }
    }

    /// Adds one whole field that the message does not read.
    fn push_field(&mut self, raw: &[u8], Ghost(field): Ghost<nat>, Ghost(value): Ghost<WireValue>)
        requires
            decode_field(raw@, group_depth_limit()) == Some((field, value, raw@.len())),
            ProtocolVersionModel::keeps_unknown(field, value),
        ensures
            final(self)@ == old(self)@ + raw@,
    {
        proof {
            use_type_invariant(&*self);
            lemma_unknown_run_field(raw@, field, value, ProtocolVersionModel::keeps(), group_depth_limit());
            lemma_unknown_run_concat(self.bytes@, raw@, ProtocolVersionModel::keeps(), group_depth_limit());
            lemma_unknown_run_empty(ProtocolVersionModel::keeps(), group_depth_limit());
        }
        let mut bytes = Vec::new();
        std::mem::swap(&mut bytes, &mut self.bytes);
        append_bytes(&mut bytes, raw);
        self.bytes = bytes;
    }

    /// Adds the unknown fields of another message of the same kind.
    fn append(&mut self, other: &Self)
        ensures
            final(self)@ == old(self)@ + other@,
    {
        proof {
            use_type_invariant(&*self);
            use_type_invariant(other);
            lemma_unknown_run_concat(self.bytes@, other.bytes@, ProtocolVersionModel::keeps(), group_depth_limit());
            lemma_unknown_run_empty(ProtocolVersionModel::keeps(), group_depth_limit());
        }
        let mut bytes = Vec::new();
        std::mem::swap(&mut bytes, &mut self.bytes);
        append_bytes(&mut bytes, other.bytes.as_slice());
        self.bytes = bytes;
    }

    fn as_slice(&self) -> (r: &[u8])
        ensures
            r@ == self@,
    {
        proof {
            use_type_invariant(self);
        }
        self.bytes.as_slice()
    }

    fn copy(&self) -> (r: Self)
        ensures
            r@ == self@,
    {
        proof {
            use_type_invariant(self);
        }
        ProtocolVersionUnknown { bytes: copy_bytes(self.bytes.as_slice()) }
    }
}

impl WireMessage for ProtocolVersion {
    open spec fn apply_wire(message: ProtocolVersionModel, field: nat, value: WireValue, raw: Seq<u8>, depth: nat) -> Option<ProtocolVersionModel> {
        message.apply(field, value, raw, depth)
    }

    open spec fn keeps_unknown(field: nat, value: WireValue) -> bool {
        ProtocolVersionModel::keeps_unknown(field, value)
    }

    open spec fn add_unknown(message: ProtocolVersionModel, raw: Seq<u8>) -> ProtocolVersionModel {
        ProtocolVersionModel { unknown: message.unknown + raw, ..message }
    }

    proof fn lemma_apply_unknown(message: ProtocolVersionModel, field: nat, value: WireValue, raw: Seq<u8>, depth: nat) {
        reveal(ProtocolVersionModel::apply);
    }

    proof fn lemma_add_unknown(message: ProtocolVersionModel, a: Seq<u8>, b: Seq<u8>) {
        assert(message.unknown + a + b =~= message.unknown + (a + b));
        assert(message.unknown + Seq::<u8>::empty() =~= message.unknown);
    }

    fn apply_field(
        &mut self,
        data: &[u8],
        field: u32,
        value: FieldValue,
        start: usize,
        end: usize,
        depth: u32,
    ) -> (ok: bool) {
        proof {
            reveal(ProtocolVersionModel::apply);
        }
        if field == 1 {
            if let FieldValue::Varint(v) = value {
                self.major = to_u32(v);
                return true;
            }
        } else if field == 2 {
            if let FieldValue::Varint(v) = value {
                self.minor = to_u32(v);
                return true;
            }
        } else if field == 3 {
            if let FieldValue::Varint(v) = value {
                self.patch = to_u32(v);
                return true;
            }
        } else if field == 4 {
            if let FieldValue::Delimited(from, to) = value {
                match proto_string(&data[from..to]) {
                    Some(text) => self.build_info = text,
                    None => return false,
                }
                return true;
            }
        }
        proof {
            lemma_decode_field_deeper(data@.subrange(start as int, end as int), depth as nat, group_depth_limit());
        }
        self.unknown.push_field(&data[start..end], Ghost(field as nat), Ghost(value.wire(data@)));
        true
    }
}

/// The content of every `ProtocolVersion` is well formed.
pub proof fn lemma_protocol_version_well_formed(m: ProtocolVersion)
    ensures
        m@.well_formed(),
{
    lemma_unknown_run_fields::<ProtocolVersion>(m.unknown.bytes@, ProtocolVersionModel::keeps(), group_depth_limit());
}

impl ProtocolVersion {
    /// A message with every field at its default.
    pub fn new() -> (r: Self)
        ensures
            r@ == ProtocolVersionModel::empty(),
    {
        let r = ProtocolVersion {
            major: 0,
            minor: 0,
            patch: 0,
            build_info: String::new(),
            unknown: ProtocolVersionUnknown::new(),
        };
        r
    }

    /// Reads a message from its wire form.
    pub fn parse(data: &[u8]) -> (r: Result<Self, protobuf::ParseError>)
        ensures
            match merge_message::<ProtocolVersion>(ProtocolVersionModel::empty(), data@, group_depth_limit()) {
                Some(m) => r matches Ok(msg) && msg@ == m && m.well_formed(),
                None => r is Err,
            },
    {
        proof {
            if merge_message::<ProtocolVersion>(ProtocolVersionModel::empty(), data@, group_depth_limit()) is Some {
                lemma_protocol_version_parse_well_formed(ProtocolVersionModel::empty(), data@, group_depth_limit());
            }
        }
        let mut msg = Self::new();
        if merge_bytes(&mut msg, data, 100) {
            Ok(msg)
        } else {
            Err(parse_error())
        }
    }

    /// Same as `parse`: the message has no required fields.
    pub fn parse_dont_enforce_required(data: &[u8]) -> (r: Result<Self, protobuf::ParseError>)
        ensures
            match merge_message::<ProtocolVersion>(ProtocolVersionModel::empty(), data@, group_depth_limit()) {
                Some(m) => r matches Ok(msg) && msg@ == m && m.well_formed(),
                None => r is Err,
            },
    {
        Self::parse(data)
    }

    /// Resets every field to its default.
    pub fn clear(&mut self)
        ensures
            final(self)@ == ProtocolVersionModel::empty(),
    {
        *self = ProtocolVersion::new();
    }

    /// Replaces the message by the one `data` encodes; on an error what the
    /// message then holds is unspecified.
    pub fn clear_and_parse(&mut self, data: &[u8]) -> (r: Result<(), protobuf::ParseError>)
        ensures
            match merge_message::<ProtocolVersion>(ProtocolVersionModel::empty(), data@, group_depth_limit()) {
                Some(m) => r is Ok && final(self)@ == m && m.well_formed(),
                None => r is Err,
            },
    {
        proof {
            if merge_message::<ProtocolVersion>(ProtocolVersionModel::empty(), data@, group_depth_limit()) is Some {
                lemma_protocol_version_parse_well_formed(ProtocolVersionModel::empty(), data@, group_depth_limit());
            }
        }
        *self = ProtocolVersion::new();
        if merge_bytes(self, data, 100) {
            Ok(())
        } else {
            Err(parse_error())
        }
    }

    /// Same as `clear_and_parse`: the message has no required fields; on an error what the
    /// message then holds is unspecified.
    pub fn clear_and_parse_dont_enforce_required(&mut self, data: &[u8]) -> (r: Result<(), protobuf::ParseError>)
        ensures
            match merge_message::<ProtocolVersion>(ProtocolVersionModel::empty(), data@, group_depth_limit()) {
                Some(m) => r is Ok && final(self)@ == m && m.well_formed(),
                None => r is Err,
            },
    {
        self.clear_and_parse(data)
    }

    /// Makes this message a copy of `src`.
    pub fn copy_from(&mut self, src: ProtocolVersionView<'_>)
        ensures
            final(self)@ == src@,
    {
        *self = src.to_owned();
    }

    /// Moves the content of `src` here, leaving `src` empty.
    pub fn take_from(&mut self, src: &mut ProtocolVersion)
        ensures
            final(self)@ == old(src)@,
            final(src)@ == ProtocolVersionModel::empty(),
    {
        let mut taken = ProtocolVersion::new();
        std::mem::swap(&mut taken, src);
        *self = taken;
    }

    /// Merges `src` into this message (see `merge` on the model).
    pub fn merge_from(&mut self, src: ProtocolVersionView<'_>)
        ensures
            final(self)@ == old(self)@.merge(src@),
    {
        match src.msg {
            Some(other) => self.merge_fields_from(other),
            None => {
                proof {
                    lemma_protocol_version_merge_empty(self@);
                }
            },
        }
    }

    fn merge_fields_from(&mut self, other: &ProtocolVersion)
        ensures
            final(self)@ == old(self)@.merge(other@),
    {
        proof {
            reveal(ProtocolVersionModel::merge);
        }
        let ghost start = self@;
        if other.major != 0 {
            self.major = other.major;
        }
        if other.minor != 0 {
            self.minor = other.minor;
        }
        if other.patch != 0 {
            self.patch = other.patch;
        }
        if !other.build_info.as_str().is_empty() {
            self.build_info = other.build_info.clone();
        }
        self.unknown.append(&other.unknown);
        assert(self@ =~= start.merge(other@));
    }

    /// Appends the wire form to `buf`.
    pub fn write_to(&self, buf: &mut Vec<u8>)
        ensures
            final(buf)@ == old(buf)@ + self@.encode(),
    {
        let ghost start = buf@;
        let ghost c1 = varint_field(1, self@.major as u64);
        let ghost c2 = varint_field(2, self@.minor as u64);
        let ghost c3 = varint_field(3, self@.patch as u64);
        let ghost c4 = bytes_field(4, encode_utf8(self@.build_info));
        let ghost c5 = self@.unknown;
        write_varint_field(buf, 1, self.major as u64);
        let ghost mut written = c1;
        assert(buf@ == start + written);
        write_varint_field(buf, 2, self.minor as u64);
        proof {
            lemma_concat_associative(start, written, c2);
            written = written + c2;
        }
        assert(buf@ == start + written);
        write_varint_field(buf, 3, self.patch as u64);
        proof {
            lemma_concat_associative(start, written, c3);
            written = written + c3;
        }
        assert(buf@ == start + written);
        write_bytes_field(buf, 4, self.build_info.as_str().as_bytes());
        proof {
            lemma_concat_associative(start, written, c4);
            written = written + c4;
        }
        assert(buf@ == start + written);
        append_bytes(buf, self.unknown.as_slice());
        proof {
            lemma_concat_associative(start, written, c5);
            written = written + c5;
        }
        assert(buf@ == start + written);
        assert(self@.encode() == written) by {
            assert(written == c1 + c2 + c3 + c4 + c5);
            reveal(ProtocolVersionModel::encode);
        }
    }

    /// The wire form, refused when it is longer than `i32::MAX` bytes. The
    /// message is well formed, so the wire form reads back as the message.
    pub fn serialize(&self) -> (r: Result<Vec<u8>, protobuf::SerializeError>)
        ensures
            match r {
                Ok(bytes) => bytes@ == self@.encode() && self@.encode().len() <= 0x7fff_ffff,
                Err(_) => self@.encode().len() > 0x7fff_ffff,
            },
            self@.well_formed(),
            self@.encode().len() <= size_limit() ==> merge_message::<ProtocolVersion>(
                ProtocolVersionModel::empty(),
                self@.encode(),
                group_depth_limit(),
            ) == Some(self@),
    {
        proof {
            lemma_protocol_version_well_formed(*self);
            if self@.encode().len() <= size_limit() {
                lemma_protocol_version_roundtrip(self@, group_depth_limit());
            }
        }
        let mut buf = Vec::new();
        self.write_to(&mut buf);
        assert(buf@ =~= self@.encode());
        if buf.len() > 0x7fff_ffff {
            return Err(serialize_error());
        }
        Ok(buf)
    }

    pub fn as_view(&self) -> (r: ProtocolVersionView<'_>)
        ensures
            r@ == self@,
    {
        ProtocolVersionView::new(self)
    }

    pub fn as_mut(&mut self) -> (r: ProtocolVersionMut<'_>)
        ensures
            r@ == old(self)@,
            *final(self) == *final(r.msg),
    {
        ProtocolVersionMut::new(self)
    }

    pub fn major(&self) -> (r: u32)
        ensures
            r == self@.major,
    {
        self.major
    }

    pub fn set_major(&mut self, val: u32)
        ensures
            final(self)@ == (ProtocolVersionModel { major: val, ..old(self)@ }),
    {
        self.major = val;
    }

    pub fn minor(&self) -> (r: u32)
        ensures
            r == self@.minor,
    {
        self.minor
    }

    pub fn set_minor(&mut self, val: u32)
        ensures
            final(self)@ == (ProtocolVersionModel { minor: val, ..old(self)@ }),
    {
        self.minor = val;
    }

    pub fn patch(&self) -> (r: u32)
        ensures
            r == self@.patch,
    {
        self.patch
    }

    pub fn set_patch(&mut self, val: u32)
        ensures
            final(self)@ == (ProtocolVersionModel { patch: val, ..old(self)@ }),
    {
        self.patch = val;
    }

    pub fn build_info(&self) -> (r: &str)
        ensures
            r@ == self@.build_info,
    {
        self.build_info.as_str()
    }

    pub fn set_build_info(&mut self, val: &str)
        ensures
            final(self)@ == (ProtocolVersionModel { build_info: val@, ..old(self)@ }),
    {
        self.build_info = val.to_owned();
    }
}

impl Clone for ProtocolVersion {
    fn clone(&self) -> (r: Self)
        ensures
            r@ == self@,
    {
        let r = ProtocolVersion {
            major: self.major,
            minor: self.minor,
            patch: self.patch,
            build_info: self.build_info.clone(),
            unknown: self.unknown.copy(),
        };
        r
    }
}

impl Default for ProtocolVersion {
    fn default() -> (r: Self)
        ensures
            r@ == ProtocolVersionModel::empty(),
    {
        Self::new()
    }
}

/// Read access to a `ProtocolVersion`; the default view reads as the empty message.
#[derive(Clone, Copy)]
pub struct ProtocolVersionView<'msg> {
    msg: Option<&'msg ProtocolVersion>,
}

impl<'msg> View for ProtocolVersionView<'msg> {
    type V = ProtocolVersionModel;

    closed spec fn view(&self) -> ProtocolVersionModel {
        match self.msg {
            Some(m) => m@,
            None => ProtocolVersionModel::empty(),
        }
    }
}

impl<'msg> ProtocolVersionView<'msg> {
    pub fn new(msg: &'msg ProtocolVersion) -> (r: Self)
        ensures
            r@ == msg@,
    {
        ProtocolVersionView { msg: Some(msg) }
    }

    /// An owned copy of the message.
    pub fn to_owned(&self) -> (r: ProtocolVersion)
        ensures
            r@ == self@,
    {
        match self.msg {
            Some(m) => m.clone(),
            None => ProtocolVersion::new(),
        }
    }

    /// The wire form, refused when it is longer than `i32::MAX` bytes. The
    /// message is well formed, so the wire form reads back as the message.
    pub fn serialize(&self) -> (r: Result<Vec<u8>, protobuf::SerializeError>)
        ensures
            match r {
                Ok(bytes) => bytes@ == self@.encode() && self@.encode().len() <= 0x7fff_ffff,
                Err(_) => self@.encode().len() > 0x7fff_ffff,
            },
            self@.well_formed(),
            self@.encode().len() <= size_limit() ==> merge_message::<ProtocolVersion>(
                ProtocolVersionModel::empty(),
                self@.encode(),
                group_depth_limit(),
            ) == Some(self@),
    {
        match self.msg {
            Some(m) => m.serialize(),
            None => ProtocolVersion::new().serialize(),
        }
    }

    pub fn major(self) -> (r: u32)
        ensures
            r == self@.major,
    {
        match self.msg {
            Some(m) => m.major,
            None => 0,
        }
    }

    pub fn minor(self) -> (r: u32)
        ensures
            r == self@.minor,
    {
        match self.msg {
            Some(m) => m.minor,
            None => 0,
        }
    }

    pub fn patch(self) -> (r: u32)
        ensures
            r == self@.patch,
    {
        match self.msg {
            Some(m) => m.patch,
            None => 0,
        }
    }

    pub fn build_info(self) -> (r: &'msg str)
        ensures
            r@ == self@.build_info,
    {
        match self.msg {
            Some(m) => m.build_info.as_str(),
            None => {
                proof {
                    reveal_strlit("");
                }
                ""
            },
        }
    }
}

impl<'msg> Default for ProtocolVersionView<'msg> {
    fn default() -> (r: Self)
        ensures
            r@ == ProtocolVersionModel::empty(),
    {
        ProtocolVersionView { msg: None }
    }
}

/// Write access to a `ProtocolVersion` held elsewhere.
pub struct ProtocolVersionMut<'msg> {
    /// The message written through this handle.
    pub msg: &'msg mut ProtocolVersion,
}

impl<'msg> View for ProtocolVersionMut<'msg> {
    type V = ProtocolVersionModel;

    open spec fn view(&self) -> ProtocolVersionModel {
        (*self.msg)@
    }
}

impl<'msg> ProtocolVersionMut<'msg> {
    pub fn new(msg: &'msg mut ProtocolVersion) -> (r: Self)
        ensures
            r@ == old(msg)@,
            *final(msg) == *final(r.msg),
    {
        ProtocolVersionMut { msg }
    }

    /// An owned copy of the message.
    pub fn to_owned(&self) -> (r: ProtocolVersion)
        ensures
            r@ == self@,
    {
        self.msg.clone()
    }

    pub fn as_view(&self) -> (r: ProtocolVersionView<'_>)
        ensures
            r@ == self@,
    {
        ProtocolVersionView::new(self.msg)
    }

    /// The wire form, refused when it is longer than `i32::MAX` bytes. The
    /// message is well formed, so the wire form reads back as the message.
    pub fn serialize(&self) -> (r: Result<Vec<u8>, protobuf::SerializeError>)
        ensures
            match r {
                Ok(bytes) => bytes@ == self@.encode() && self@.encode().len() <= 0x7fff_ffff,
                Err(_) => self@.encode().len() > 0x7fff_ffff,
            },
            self@.well_formed(),
            self@.encode().len() <= size_limit() ==> merge_message::<ProtocolVersion>(
                ProtocolVersionModel::empty(),
                self@.encode(),
                group_depth_limit(),
            ) == Some(self@),
    {
        self.msg.serialize()
    }

    /// Resets every field to its default.
    pub fn clear(&mut self)
        ensures
            final(self)@ == ProtocolVersionModel::empty(),
            *final(final(self).msg) == *final(old(self).msg),
    {
        self.msg.clear();
    }

    /// Replaces the message by the one `data` encodes.
    pub fn clear_and_parse(&mut self, data: &[u8]) -> (r: Result<(), protobuf::ParseError>)
        ensures
            match merge_message::<ProtocolVersion>(ProtocolVersionModel::empty(), data@, group_depth_limit()) {
                Some(m) => r is Ok && final(self)@ == m && m.well_formed(),
                None => r is Err,
            },
            *final(final(self).msg) == *final(old(self).msg),
    {
        self.msg.clear_and_parse(data)
    }

    /// Replaces the message by the one `data` encodes.
    pub fn clear_and_parse_dont_enforce_required(&mut self, data: &[u8]) -> (r: Result<(), protobuf::ParseError>)
        ensures
            match merge_message::<ProtocolVersion>(ProtocolVersionModel::empty(), data@, group_depth_limit()) {
                Some(m) => r is Ok && final(self)@ == m && m.well_formed(),
                None => r is Err,
            },
            *final(final(self).msg) == *final(old(self).msg),
    {
        self.msg.clear_and_parse_dont_enforce_required(data)
    }

    /// Makes the message a copy of `src`.
    pub fn copy_from(&mut self, src: ProtocolVersionView<'_>)
        ensures
            final(self)@ == src@,
            *final(final(self).msg) == *final(old(self).msg),
    {
        self.msg.copy_from(src);
    }

    /// Merges `src` into the message.
    pub fn merge_from(&mut self, src: ProtocolVersionView<'_>)
        ensures
            final(self)@ == old(self)@.merge(src@),
            *final(final(self).msg) == *final(old(self).msg),
    {
        self.msg.merge_from(src);
    }

    pub fn major(&self) -> (r: u32)
        ensures
            r == self@.major,
    {
        self.msg.major()
    }

    pub fn set_major(&mut self, val: u32)
        ensures
            final(self)@ == (ProtocolVersionModel { major: val, ..old(self)@ }),
            *final(final(self).msg) == *final(old(self).msg),
    {
        self.msg.set_major(val);
    }

    pub fn minor(&self) -> (r: u32)
        ensures
            r == self@.minor,
    {
        self.msg.minor()
    }

    pub fn set_minor(&mut self, val: u32)
        ensures
            final(self)@ == (ProtocolVersionModel { minor: val, ..old(self)@ }),
            *final(final(self).msg) == *final(old(self).msg),
    {
        self.msg.set_minor(val);
    }

    pub fn patch(&self) -> (r: u32)
        ensures
            r == self@.patch,
    {
        self.msg.patch()
    }

    pub fn set_patch(&mut self, val: u32)
        ensures
            final(self)@ == (ProtocolVersionModel { patch: val, ..old(self)@ }),
            *final(final(self).msg) == *final(old(self).msg),
    {
        self.msg.set_patch(val);
    }

    pub fn build_info(&self) -> (r: &str)
        ensures
            r@ == self@.build_info,
    {
        self.msg.build_info()
    }

    pub fn set_build_info(&mut self, val: &str)
        ensures
            final(self)@ == (ProtocolVersionModel { build_info: val@, ..old(self)@ }),
            *final(final(self).msg) == *final(old(self).msg),
    {
        self.msg.set_build_info(val);
    }
}

/// The content of a `CapabilityNegotiation`.
pub struct CapabilityNegotiationModel {
    pub min_version: Option<ProtocolVersionModel>,
    pub max_version: Option<ProtocolVersionModel>,
    pub supported_features: Seq<Seq<char>>,
    pub required_features: Seq<Seq<char>>,
    /// The fields read but not understood, as they came, in order.
    pub unknown: Seq<u8>,
}

impl CapabilityNegotiationModel {
    /// The message with every field at its default.
    pub open spec fn empty() -> Self {
        CapabilityNegotiationModel {
            min_version: None,
            max_version: None,
            supported_features: Seq::empty(),
            required_features: Seq::empty(),
            unknown: Seq::empty(),
        }
    }

    /// The wire form: fields in number order, defaults and absent
    /// sub-messages left out, then the unknown fields as they came.
    #[verifier::opaque]
    pub open spec fn encode(self) -> Seq<u8> {
        optional_message(1, match self.min_version {
            Some(x) => Some(x.encode()),
            None => None,
        })
            + optional_message(2, match self.max_version {
                Some(x) => Some(x.encode()),
                None => None,
            })
            + repeated_strings(3, self.supported_features)
            + repeated_strings(4, self.required_features)
            + self.unknown
    }

    /// Whether a field is kept, as it came, among the unknown fields: its
    /// number is not one of this message's, or it comes with another wire
    /// type than its field is written with.
    pub open spec fn keeps_unknown(field: nat, value: WireValue) -> bool {
        if field == 1 {
            !(value is Delimited)
        } else if field == 2 {
            !(value is Delimited)
        } else if field == 3 {
            !(value is Delimited)
        } else if field == 4 {
            !(value is Delimited)
        } else {
            true
        }
    }

    /// `keeps_unknown` as a function.
    pub open spec fn keeps() -> spec_fn(nat, WireValue) -> bool {
        |field: nat, value: WireValue| CapabilityNegotiationModel::keeps_unknown(field, value)
    }

    /// How one field of the wire form changes the message; `raw` is the
    /// field as it came. `None` when the field's content is malformed.
    #[verifier::opaque]
    pub open spec fn apply(self, field: nat, value: WireValue, raw: Seq<u8>, depth: nat) -> Option<Self> {
        if Self::keeps_unknown(field, value) {
            Some(CapabilityNegotiationModel { unknown: self.unknown + raw, ..self })
        } else if field == 1 {
            match value {
                WireValue::Delimited(b) => if depth == 0 {
                    None
                } else {
                    match merge_message::<ProtocolVersion>(
                        match self.min_version {
                            Some(x) => x,
                            None => ProtocolVersionModel::empty(),
                        },
                        b,
                        (depth - 1) as nat,
                    ) {
                        Some(x) => Some(CapabilityNegotiationModel { min_version: Some(x), ..self }),
                        None => None,
                    }
                },
                _ => Some(self),
            }
        } else if field == 2 {
            match value {
                WireValue::Delimited(b) => if depth == 0 {
                    None
                } else {
                    match merge_message::<ProtocolVersion>(
                        match self.max_version {
                            Some(x) => x,
                            None => ProtocolVersionModel::empty(),
                        },
                        b,
                        (depth - 1) as nat,
                    ) {
                        Some(x) => Some(CapabilityNegotiationModel { max_version: Some(x), ..self }),
                        None => None,
                    }
                },
                _ => Some(self),
            }
        } else if field == 3 {
            match value {
                WireValue::Delimited(b) => if valid_utf8(b) {
                    Some(CapabilityNegotiationModel { supported_features: self.supported_features.push(decode_utf8(b)), ..self })
                } else {
                    None
                },
                _ => Some(self),
            }
        } else if field == 4 {
            match value {
                WireValue::Delimited(b) => if valid_utf8(b) {
                    Some(CapabilityNegotiationModel { required_features: self.required_features.push(decode_utf8(b)), ..self })
                } else {
                    None
                },
                _ => Some(self),
            }
        } else {
            Some(self)
        }
    }

    /// `other` merged into this message, as protobuf merges: a scalar, string
    /// or bytes field set in `other` replaces the one here, repeated fields
    /// are appended, sub-messages are merged, map entries inserted and
    /// unknown fields appended.
    #[verifier::opaque]
    pub open spec fn merge(self, other: Self) -> Self {
        CapabilityNegotiationModel {
            min_version: match other.min_version {
                Some(x) => Some(match self.min_version {
                    Some(y) => y.merge(x),
                    None => ProtocolVersionModel::empty().merge(x),
                }),
                None => self.min_version,
            },
            max_version: match other.max_version {
                Some(x) => Some(match self.max_version {
                    Some(y) => y.merge(x),
                    None => ProtocolVersionModel::empty().merge(x),
                }),
                None => self.max_version,
            },
            supported_features: self.supported_features + other.supported_features,
            required_features: self.required_features + other.required_features,
            unknown: self.unknown + other.unknown,
        }
    }

    /// What writing the message out and reading it back relies on: the
    /// unknown fields are whole fields this message does not read, and
    /// the same holds of every sub-message.
    pub open spec fn well_formed(self) -> bool {
        &&& unknown_fields::<CapabilityNegotiation>(self.unknown, group_depth_limit())
        &&& match self.min_version {
            Some(x) => x.well_formed(),
            None => true,
        }
        &&& match self.max_version {
            Some(x) => x.well_formed(),
            None => true,
        }
    }

    /// What reading the wire form back with `depth` levels of nesting left
    /// relies on: the message is well formed, its unknown fields read as
    /// whole fields with `depth` levels, and each sub-message reads back
    /// with one level less.
    pub open spec fn well_formed_at(self, depth: nat) -> bool {
        &&& self.well_formed()
        &&& unknown_fields::<CapabilityNegotiation>(self.unknown, depth)
        &&& match self.min_version {
            Some(x) => depth >= 1 && x.well_formed_at((depth - 1) as nat),
            None => true,
        }
        &&& match self.max_version {
            Some(x) => depth >= 1 && x.well_formed_at((depth - 1) as nat),
            None => true,
        }
    }
}

/// Reading the `min_version` field as `b` writes it merges it into `m`.
proof fn lemma_capability_negotiation_read_min_version(m: CapabilityNegotiationModel, b: CapabilityNegotiationModel, rest: Seq<u8>, depth: nat)
    requires
        optional_message(1, match b.min_version {
            Some(x) => Some(x.encode()),
            None => None,
        }).len() <= size_limit(),
        b.well_formed_at(depth),
    ensures
        merge_message::<CapabilityNegotiation>(m, optional_message(1, match b.min_version {
            Some(x) => Some(x.encode()),
            None => None,
        }) + rest, depth) == merge_message::<CapabilityNegotiation>(
            CapabilityNegotiationModel { min_version: match b.min_version {
                Some(x) => Some(match m.min_version {
                    Some(y) => y.merge(x),
                    None => ProtocolVersionModel::empty().merge(x),
                }),
                None => m.min_version,
            }, ..m },
            rest,
            depth,
        ),
{
    let next = CapabilityNegotiationModel { min_version: match b.min_version {
        Some(x) => Some(match m.min_version {
            Some(y) => y.merge(x),
            None => ProtocolVersionModel::empty().merge(x),
        }),
        None => m.min_version,
    }, ..m };
    reveal(CapabilityNegotiationModel::apply);
    match b.min_version {
        Some(x) => {
            let sub = match m.min_version {
                Some(y) => y,
                None => ProtocolVersionModel::empty(),
            };
            lemma_protocol_version_merge_wire(sub, x, (depth - 1) as nat);
            lemma_merge_delimited::<CapabilityNegotiation>(m, 1, x.encode(), rest, next, depth);
        },
        None => {
            assert(optional_message(1, match b.min_version {
            Some(x) => Some(x.encode()),
            None => None,
        }) + rest =~= rest);
        },
    }
}

/// Reading the `max_version` field as `b` writes it merges it into `m`.
proof fn lemma_capability_negotiation_read_max_version(m: CapabilityNegotiationModel, b: CapabilityNegotiationModel, rest: Seq<u8>, depth: nat)
    requires
        optional_message(2, match b.max_version {
            Some(x) => Some(x.encode()),
            None => None,
        }).len() <= size_limit(),
        b.well_formed_at(depth),
    ensures
        merge_message::<CapabilityNegotiation>(m, optional_message(2, match b.max_version {
            Some(x) => Some(x.encode()),
            None => None,
        }) + rest, depth) == merge_message::<CapabilityNegotiation>(
            CapabilityNegotiationModel { max_version: match b.max_version {
                Some(x) => Some(match m.max_version {
                    Some(y) => y.merge(x),
                    None => ProtocolVersionModel::empty().merge(x),
                }),
                None => m.max_version,
            }, ..m },
            rest,
            depth,
        ),
{
    let next = CapabilityNegotiationModel { max_version: match b.max_version {
        Some(x) => Some(match m.max_version {
            Some(y) => y.merge(x),
            None => ProtocolVersionModel::empty().merge(x),
        }),
        None => m.max_version,
    }, ..m };
    reveal(CapabilityNegotiationModel::apply);
    match b.max_version {
        Some(x) => {
            let sub = match m.max_version {
                Some(y) => y,
                None => ProtocolVersionModel::empty(),
            };
            lemma_protocol_version_merge_wire(sub, x, (depth - 1) as nat);
            lemma_merge_delimited::<CapabilityNegotiation>(m, 2, x.encode(), rest, next, depth);
        },
        None => {
            assert(optional_message(2, match b.max_version {
            Some(x) => Some(x.encode()),
            None => None,
        }) + rest =~= rest);
        },
    }
}

/// Reading the unknown fields as `b` writes them adds them to those of `m`.
proof fn lemma_capability_negotiation_read_unknown(m: CapabilityNegotiationModel, b: CapabilityNegotiationModel, rest: Seq<u8>, depth: nat)
    requires
        b.unknown.len() <= size_limit(),
        b.well_formed_at(depth),
    ensures
        merge_message::<CapabilityNegotiation>(m, b.unknown + rest, depth) == merge_message::<CapabilityNegotiation>(
            CapabilityNegotiationModel { unknown: m.unknown + b.unknown, ..m },
            rest,
            depth,
        ),
{
    lemma_merge_unknown::<CapabilityNegotiation>(m, b.unknown, rest, depth);
}

/// Reading the wire form of `b` into `a`, with `depth` levels of nesting left,
/// gives `b` merged into `a`.
pub proof fn lemma_capability_negotiation_merge_wire(a: CapabilityNegotiationModel, b: CapabilityNegotiationModel, depth: nat)
    requires
        b.encode().len() <= size_limit(),
        b.well_formed_at(depth),
    ensures
        merge_message::<CapabilityNegotiation>(a, b.encode(), depth) == Some(a.merge(b)),
{
    let c1 = optional_message(1, match b.min_version {
        Some(x) => Some(x.encode()),
        None => None,
    });
    let c2 = optional_message(2, match b.max_version {
        Some(x) => Some(x.encode()),
        None => None,
    });
    let c3 = repeated_strings(3, b.supported_features);
    let c4 = repeated_strings(4, b.required_features);
    let c5 = b.unknown;
    assert(b.encode() == c1 + c2 + c3 + c4 + c5) by {
        reveal(CapabilityNegotiationModel::encode);
    }
    let m0 = a;
    let m1 = CapabilityNegotiationModel { min_version: match b.min_version {
        Some(x) => Some(match m0.min_version {
            Some(y) => y.merge(x),
            None => ProtocolVersionModel::empty().merge(x),
        }),
        None => m0.min_version,
    }, ..m0 };
    lemma_capability_negotiation_read_min_version(m0, b, Seq::empty(), depth);
    assert(c1 + Seq::empty() =~= c1);
    lemma_merge_nothing::<CapabilityNegotiation>(m1, depth);
    let m2 = CapabilityNegotiationModel { max_version: match b.max_version {
        Some(x) => Some(match m1.max_version {
            Some(y) => y.merge(x),
            None => ProtocolVersionModel::empty().merge(x),
        }),
        None => m1.max_version,
    }, ..m1 };
    lemma_capability_negotiation_read_max_version(m1, b, Seq::empty(), depth);
    assert(c2 + Seq::empty() =~= c2);
    lemma_merge_nothing::<CapabilityNegotiation>(m2, depth);
    lemma_merge_concat::<CapabilityNegotiation>(a, c1, c2, depth);
    let m3 = CapabilityNegotiationModel { supported_features: m2.supported_features + b.supported_features, ..m2 };
    lemma_capability_negotiation_supported_features(m2, b.supported_features, Seq::empty(), depth);
    assert(c3 + Seq::empty() =~= c3);
    lemma_merge_nothing::<CapabilityNegotiation>(m3, depth);
    lemma_merge_concat::<CapabilityNegotiation>(a, c1 + c2, c3, depth);
    let m4 = CapabilityNegotiationModel { required_features: m3.required_features + b.required_features, ..m3 };
    lemma_capability_negotiation_required_features(m3, b.required_features, Seq::empty(), depth);
    assert(c4 + Seq::empty() =~= c4);
    lemma_merge_nothing::<CapabilityNegotiation>(m4, depth);
    lemma_merge_concat::<CapabilityNegotiation>(a, c1 + c2 + c3, c4, depth);
    let m5 = CapabilityNegotiationModel { unknown: m4.unknown + b.unknown, ..m4 };
    lemma_capability_negotiation_read_unknown(m4, b, Seq::empty(), depth);
    assert(c5 + Seq::empty() =~= c5);
    lemma_merge_nothing::<CapabilityNegotiation>(m5, depth);
    lemma_merge_concat::<CapabilityNegotiation>(a, c1 + c2 + c3 + c4, c5, depth);
    assert(m5 == a.merge(b)) by {
        reveal(CapabilityNegotiationModel::merge);
    }
}

/// Merging the empty message changes nothing.
pub proof fn lemma_capability_negotiation_merge_empty(a: CapabilityNegotiationModel)
    ensures
        a.merge(CapabilityNegotiationModel::empty()) == a,
{
    reveal(CapabilityNegotiationModel::merge);
    assert(a.supported_features + Seq::empty() =~= a.supported_features);
    assert(a.required_features + Seq::empty() =~= a.required_features);
    assert(a.unknown + Seq::empty() =~= a.unknown);
    assert(a.merge(CapabilityNegotiationModel::empty()) =~= a);
}

/// Merging a message into the empty one gives that message.
pub proof fn lemma_capability_negotiation_empty_merge(b: CapabilityNegotiationModel)
    ensures
        CapabilityNegotiationModel::empty().merge(b) == b,
{
    reveal(CapabilityNegotiationModel::merge);
    if let Some(x) = b.min_version {
        lemma_protocol_version_empty_merge(x);
    }
    if let Some(x) = b.max_version {
        lemma_protocol_version_empty_merge(x);
    }
    assert(Seq::empty() + b.supported_features =~= b.supported_features);
    assert(Seq::empty() + b.required_features =~= b.required_features);
    assert(Seq::empty() + b.unknown =~= b.unknown);
    assert(CapabilityNegotiationModel::empty().merge(b) =~= b);
}

/// Writing a message out and reading it back, with `depth` levels of
/// nesting left (`group_depth_limit()` for a message read on its own),
/// gives the same message.
pub proof fn lemma_capability_negotiation_roundtrip(m: CapabilityNegotiationModel, depth: nat)
    requires
        m.encode().len() <= size_limit(),
        m.well_formed_at(depth),
    ensures
        merge_message::<CapabilityNegotiation>(CapabilityNegotiationModel::empty(), m.encode(), depth) == Some(m),
{
    lemma_capability_negotiation_merge_wire(CapabilityNegotiationModel::empty(), m, depth);
    lemma_capability_negotiation_empty_merge(m);
}

/// Reading two encoded messages written one after the other, with `depth`
/// levels of nesting left, gives the second merged into the first.
pub proof fn lemma_capability_negotiation_concat(a: CapabilityNegotiationModel, b: CapabilityNegotiationModel, depth: nat)
    requires
        a.encode().len() <= size_limit(),
        b.encode().len() <= size_limit(),
        a.well_formed_at(depth),
        b.well_formed_at(depth),
    ensures
        merge_message::<CapabilityNegotiation>(CapabilityNegotiationModel::empty(), a.encode() + b.encode(), depth) == Some(a.merge(b)),
{
    lemma_capability_negotiation_roundtrip(a, depth);
    lemma_merge_concat::<CapabilityNegotiation>(CapabilityNegotiationModel::empty(), a.encode(), b.encode(), depth);
    lemma_capability_negotiation_merge_wire(a, b, depth);
}

/// Merging two well-formed messages gives a well-formed message.
pub proof fn lemma_capability_negotiation_merge_well_formed(a: CapabilityNegotiationModel, b: CapabilityNegotiationModel)
    requires
        a.well_formed(),
        b.well_formed(),
    ensures
        a.merge(b).well_formed(),
{
    reveal(CapabilityNegotiationModel::merge);
    lemma_unknown_fields_concat::<CapabilityNegotiation>(a.unknown, b.unknown, group_depth_limit());
    if let Some(x) = b.min_version {
        match a.min_version {
            Some(y) => lemma_protocol_version_merge_well_formed(y, x),
            None => lemma_protocol_version_merge_well_formed(ProtocolVersionModel::empty(), x),
        }
    }
    if let Some(x) = b.max_version {
        match a.max_version {
            Some(y) => lemma_protocol_version_merge_well_formed(y, x),
            None => lemma_protocol_version_merge_well_formed(ProtocolVersionModel::empty(), x),
        }
    }
}

/// Reading one whole field into a well-formed message keeps it well formed.
proof fn lemma_capability_negotiation_apply_well_formed(m: CapabilityNegotiationModel, field: nat, value: WireValue, raw: Seq<u8>, depth: nat)
    requires
        m.well_formed(),
        depth <= group_depth_limit(),
        decode_field(raw, depth) == Some((field, value, raw.len())),
        m.apply(field, value, raw, depth) is Some,
    ensures
        m.apply(field, value, raw, depth)->0.well_formed(),
{
    reveal(CapabilityNegotiationModel::apply);
    if CapabilityNegotiationModel::keeps_unknown(field, value) {
        lemma_decode_field_deeper(raw, depth, group_depth_limit());
        lemma_unknown_field::<CapabilityNegotiation>(raw, field, value, group_depth_limit());
        lemma_unknown_fields_concat::<CapabilityNegotiation>(m.unknown, raw, group_depth_limit());
    } else if field == 1 {
        if let WireValue::Delimited(b) = value {
            let sub = match m.min_version {
                Some(x) => x,
                None => ProtocolVersionModel::empty(),
            };
            lemma_protocol_version_parse_well_formed(sub, b, (depth - 1) as nat);
        }
    } else if field == 2 {
        if let WireValue::Delimited(b) = value {
            let sub = match m.max_version {
                Some(x) => x,
                None => ProtocolVersionModel::empty(),
            };
            lemma_protocol_version_parse_well_formed(sub, b, (depth - 1) as nat);
        }
    }
}

/// Reading whole fields into a well-formed message, with at most
/// `group_depth_limit()` levels of nesting left, keeps it well formed.
pub proof fn lemma_capability_negotiation_parse_well_formed(m: CapabilityNegotiationModel, s: Seq<u8>, depth: nat)
    requires
        m.well_formed(),
        depth <= group_depth_limit(),
        merge_message::<CapabilityNegotiation>(m, s, depth) is Some,
    ensures
        merge_message::<CapabilityNegotiation>(m, s, depth)->0.well_formed(),
{
    assert forall|x: CapabilityNegotiationModel, field: nat, value: WireValue, raw: Seq<u8>|
        x.well_formed() && decode_field(raw, depth) == Some((field, value, raw.len())) && #[trigger] CapabilityNegotiation::apply_wire(
            x,
            field,
            value,
            raw,
            depth,
        ) is Some implies CapabilityNegotiation::apply_wire(x, field, value, raw, depth)->0.well_formed() by {
        lemma_capability_negotiation_apply_well_formed(x, field, value, raw, depth);
    }
    lemma_merge_preserves::<CapabilityNegotiation>(m, s, |x: CapabilityNegotiationModel| x.well_formed(), depth);
}

/// Reading the elements of `supported_features` appends them, in order.
proof fn lemma_capability_negotiation_supported_features(m: CapabilityNegotiationModel, items: Seq<Seq<char>>, rest: Seq<u8>, depth: nat)
    requires
        repeated_strings(3, items).len() <= size_limit(),
    ensures
        merge_message::<CapabilityNegotiation>(m, repeated_strings(3, items) + rest, depth) == merge_message::<CapabilityNegotiation>(
            (CapabilityNegotiationModel { supported_features: m.supported_features + items, ..m }),
            rest,
            depth,
        ),
    decreases items.len(),
{
    reveal(CapabilityNegotiationModel::apply);
    if items.len() == 0 {
        assert(m.supported_features + items =~= m.supported_features);
        assert(repeated_strings(3, items) + rest =~= rest);
    } else {
        let next = CapabilityNegotiationModel { supported_features: m.supported_features.push(items[0]), ..m };
        encode_utf8_decode_utf8(items[0]);
        encode_utf8_valid_utf8(items[0]);
        assert(items.map_values(|s: Seq<char>| encode_utf8(s)).drop_first() =~= items.drop_first().map_values(
            |s: Seq<char>| encode_utf8(s),
        ));
        assert(repeated_strings(3, items) + rest =~= delimited(3, encode_utf8(items[0])) + (repeated_strings(3, items.drop_first()) + rest));
        lemma_merge_delimited::<CapabilityNegotiation>(m, 3, encode_utf8(items[0]), repeated_strings(3, items.drop_first()) + rest, next, depth);
        lemma_capability_negotiation_supported_features(next, items.drop_first(), rest, depth);
        assert(next.supported_features + items.drop_first() =~= m.supported_features + items);
    }
}

/// Reading the elements of `required_features` appends them, in order.
proof fn lemma_capability_negotiation_required_features(m: CapabilityNegotiationModel, items: Seq<Seq<char>>, rest: Seq<u8>, depth: nat)
    requires
        repeated_strings(4, items).len() <= size_limit(),
    ensures
        merge_message::<CapabilityNegotiation>(m, repeated_strings(4, items) + rest, depth) == merge_message::<CapabilityNegotiation>(
            (CapabilityNegotiationModel { required_features: m.required_features + items, ..m }),
            rest,
            depth,
        ),
    decreases items.len(),
{
    reveal(CapabilityNegotiationModel::apply);
    if items.len() == 0 {
        assert(m.required_features + items =~= m.required_features);
        assert(repeated_strings(4, items) + rest =~= rest);
    } else {
        let next = CapabilityNegotiationModel { required_features: m.required_features.push(items[0]), ..m };
        encode_utf8_decode_utf8(items[0]);
        encode_utf8_valid_utf8(items[0]);
        assert(items.map_values(|s: Seq<char>| encode_utf8(s)).drop_first() =~= items.drop_first().map_values(
            |s: Seq<char>| encode_utf8(s),
        ));
        assert(repeated_strings(4, items) + rest =~= delimited(4, encode_utf8(items[0])) + (repeated_strings(4, items.drop_first()) + rest));
        lemma_merge_delimited::<CapabilityNegotiation>(m, 4, encode_utf8(items[0]), repeated_strings(4, items.drop_first()) + rest, next, depth);
        lemma_capability_negotiation_required_features(next, items.drop_first(), rest, depth);
        assert(next.required_features + items.drop_first() =~= m.required_features + items);
    }
}

/// The protocol versions and features a device offers when a connection opens.
pub struct CapabilityNegotiation {
    min_version: Option<ProtocolVersion>,
    max_version: Option<ProtocolVersion>,
    supported_features: Vec<String>,
    required_features: Vec<String>,
    unknown: CapabilityNegotiationUnknown,
}

impl View for CapabilityNegotiation {
    type V = CapabilityNegotiationModel;

    closed spec fn view(&self) -> CapabilityNegotiationModel {
        CapabilityNegotiationModel {
            min_version: match self.min_version {
                Some(x) => Some(x@),
                None => None,
            },
            max_version: match self.max_version {
                Some(x) => Some(x@),
                None => None,
            },
            supported_features: self.supported_features@.map_values(|s: String| s@),
            required_features: self.required_features@.map_values(|s: String| s@),
            unknown: self.unknown@,
        }
    }
}

/// The unknown fields of a `CapabilityNegotiation`: whole fields it does not read, as they
/// came, in order.
struct CapabilityNegotiationUnknown {
    bytes: Vec<u8>,
}

impl View for CapabilityNegotiationUnknown {
    type V = Seq<u8>;

    closed spec fn view(&self) -> Seq<u8> {
        if unknown_run(self.bytes@, CapabilityNegotiationModel::keeps(), group_depth_limit()) {
            self.bytes@
        } else {
            Seq::empty()
        }
    }
}

impl CapabilityNegotiationUnknown {
    #[verifier::type_invariant]
    closed spec fn whole(self) -> bool {
        unknown_run(self.bytes@, CapabilityNegotiationModel::keeps(), group_depth_limit())
    }

    fn new() -> (r: Self)
        ensures
            r@ == Seq::<u8>::empty(),
    {
        proof {
            lemma_unknown_run_empty(CapabilityNegotiationModel::keeps(), group_depth_limit());
        }
        CapabilityNegotiationUnknown { bytes: Vec::new() }
    }

    /// Adds one whole field that the message does not read.
    fn push_field(&mut self, raw: &[u8], Ghost(field): Ghost<nat>, Ghost(value): Ghost<WireValue>)
        requires
            decode_field(raw@, group_depth_limit()) == Some((field, value, raw@.len())),
            CapabilityNegotiationModel::keeps_unknown(field, value),
        ensures
            final(self)@ == old(self)@ + raw@,
    {
        proof {
            use_type_invariant(&*self);
            lemma_unknown_run_field(raw@, field, value, CapabilityNegotiationModel::keeps(), group_depth_limit());
            lemma_unknown_run_concat(self.bytes@, raw@, CapabilityNegotiationModel::keeps(), group_depth_limit());
            lemma_unknown_run_empty(CapabilityNegotiationModel::keeps(), group_depth_limit());
        }
        let mut bytes = Vec::new();
        std::mem::swap(&mut bytes, &mut self.bytes);
        append_bytes(&mut bytes, raw);
        self.bytes = bytes;
    }

    /// Adds the unknown fields of another message of the same kind.
    fn append(&mut self, other: &Self)
        ensures
            final(self)@ == old(self)@ + other@,
    {
        proof {
            use_type_invariant(&*self);
            use_type_invariant(other);
            lemma_unknown_run_concat(self.bytes@, other.bytes@, CapabilityNegotiationModel::keeps(), group_depth_limit());
            lemma_unknown_run_empty(CapabilityNegotiationModel::keeps(), group_depth_limit());
        }
        let mut bytes = Vec::new();
        std::mem::swap(&mut bytes, &mut self.bytes);
        append_bytes(&mut bytes, other.bytes.as_slice());
        self.bytes = bytes;
    }

    fn as_slice(&self) -> (r: &[u8])
        ensures
            r@ == self@,
    {
        proof {
            use_type_invariant(self);
        }
        self.bytes.as_slice()
    }

    fn copy(&self) -> (r: Self)
        ensures
            r@ == self@,
    {
        proof {
            use_type_invariant(self);
        }
        CapabilityNegotiationUnknown { bytes: copy_bytes(self.bytes.as_slice()) }
    }
}

impl WireMessage for CapabilityNegotiation {
    open spec fn apply_wire(message: CapabilityNegotiationModel, field: nat, value: WireValue, raw: Seq<u8>, depth: nat) -> Option<CapabilityNegotiationModel> {
        message.apply(field, value, raw, depth)
    }

    open spec fn keeps_unknown(field: nat, value: WireValue) -> bool {
        CapabilityNegotiationModel::keeps_unknown(field, value)
    }

    open spec fn add_unknown(message: CapabilityNegotiationModel, raw: Seq<u8>) -> CapabilityNegotiationModel {
        CapabilityNegotiationModel { unknown: message.unknown + raw, ..message }
    }

    proof fn lemma_apply_unknown(message: CapabilityNegotiationModel, field: nat, value: WireValue, raw: Seq<u8>, depth: nat) {
        reveal(CapabilityNegotiationModel::apply);
    }

    proof fn lemma_add_unknown(message: CapabilityNegotiationModel, a: Seq<u8>, b: Seq<u8>) {
        assert(message.unknown + a + b =~= message.unknown + (a + b));
        assert(message.unknown + Seq::<u8>::empty() =~= message.unknown);
    }

    fn apply_field(
        &mut self,
        data: &[u8],
        field: u32,
        value: FieldValue,
        start: usize,
        end: usize,
        depth: u32,
    ) -> (ok: bool) {
        proof {
            reveal(CapabilityNegotiationModel::apply);
        }
        if field == 1 {
            if let FieldValue::Delimited(from, to) = value {
                if depth == 0 {
                    return false;
                }
                let mut sub = match self.min_version.take() {
                    Some(x) => x,
                    None => ProtocolVersion::new(),
                };
                if !merge_bytes(&mut sub, &data[from..to], depth - 1) {
                    return false;
                }
                self.min_version = Some(sub);
                return true;
            }
        } else if field == 2 {
            if let FieldValue::Delimited(from, to) = value {
                if depth == 0 {
                    return false;
                }
                let mut sub = match self.max_version.take() {
                    Some(x) => x,
                    None => ProtocolVersion::new(),
                };
                if !merge_bytes(&mut sub, &data[from..to], depth - 1) {
                    return false;
                }
                self.max_version = Some(sub);
                return true;
            }
        } else if field == 3 {
            if let FieldValue::Delimited(from, to) = value {
                match proto_string(&data[from..to]) {
                    Some(text) => {
                        let ghost before = self.supported_features@;
                        self.supported_features.push(text);
                        assert(self.supported_features@.map_values(|s: String| s@) =~= before.map_values(|s: String| s@).push(
                            text@,
                        ));
                    },
                    None => return false,
                }
                return true;
            }
        } else if field == 4 {
            if let FieldValue::Delimited(from, to) = value {
                match proto_string(&data[from..to]) {
                    Some(text) => {
                        let ghost before = self.required_features@;
                        self.required_features.push(text);
                        assert(self.required_features@.map_values(|s: String| s@) =~= before.map_values(|s: String| s@).push(
                            text@,
                        ));
                    },
                    None => return false,
                }
                return true;
            }
        }
        proof {
            lemma_decode_field_deeper(data@.subrange(start as int, end as int), depth as nat, group_depth_limit());
        }
        self.unknown.push_field(&data[start..end], Ghost(field as nat), Ghost(value.wire(data@)));
        true
    }
}

/// The content of every `CapabilityNegotiation` is well formed.
pub proof fn lemma_capability_negotiation_well_formed(m: CapabilityNegotiation)
    ensures
        m@.well_formed(),
{
    lemma_unknown_run_fields::<CapabilityNegotiation>(m.unknown.bytes@, CapabilityNegotiationModel::keeps(), group_depth_limit());
    if let Some(x) = m.min_version {
        lemma_protocol_version_well_formed(x);
    }
    if let Some(x) = m.max_version {
        lemma_protocol_version_well_formed(x);
    }
}

impl CapabilityNegotiation {
    /// A message with every field at its default.
    pub fn new() -> (r: Self)
        ensures
            r@ == CapabilityNegotiationModel::empty(),
    {
        let r = CapabilityNegotiation {
            min_version: None,
            max_version: None,
            supported_features: Vec::new(),
            required_features: Vec::new(),
            unknown: CapabilityNegotiationUnknown::new(),
        };
        assert(r@.supported_features =~= Seq::empty());
        assert(r@.required_features =~= Seq::empty());
        r
    }

    /// Reads a message from its wire form.
    pub fn parse(data: &[u8]) -> (r: Result<Self, protobuf::ParseError>)
        ensures
            match merge_message::<CapabilityNegotiation>(CapabilityNegotiationModel::empty(), data@, group_depth_limit()) {
                Some(m) => r matches Ok(msg) && msg@ == m && m.well_formed(),
                None => r is Err,
            },
    {
        proof {
            if merge_message::<CapabilityNegotiation>(CapabilityNegotiationModel::empty(), data@, group_depth_limit()) is Some {
                lemma_capability_negotiation_parse_well_formed(CapabilityNegotiationModel::empty(), data@, group_depth_limit());
            }
        }
        let mut msg = Self::new();
        if merge_bytes(&mut msg, data, 100) {
            Ok(msg)
        } else {
            Err(parse_error())
        }
    }

    /// Same as `parse`: the message has no required fields.
    pub fn parse_dont_enforce_required(data: &[u8]) -> (r: Result<Self, protobuf::ParseError>)
        ensures
            match merge_message::<CapabilityNegotiation>(CapabilityNegotiationModel::empty(), data@, group_depth_limit()) {
                Some(m) => r matches Ok(msg) && msg@ == m && m.well_formed(),
                None => r is Err,
            },
    {
        Self::parse(data)
    }

    /// Resets every field to its default.
    pub fn clear(&mut self)
        ensures
            final(self)@ == CapabilityNegotiationModel::empty(),
    {
        *self = CapabilityNegotiation::new();
    }

    /// Replaces the message by the one `data` encodes; on an error what the
    /// message then holds is unspecified.
    pub fn clear_and_parse(&mut self, data: &[u8]) -> (r: Result<(), protobuf::ParseError>)
        ensures
            match merge_message::<CapabilityNegotiation>(CapabilityNegotiationModel::empty(), data@, group_depth_limit()) {
                Some(m) => r is Ok && final(self)@ == m && m.well_formed(),
                None => r is Err,
            },
    {
        proof {
            if merge_message::<CapabilityNegotiation>(CapabilityNegotiationModel::empty(), data@, group_depth_limit()) is Some {
                lemma_capability_negotiation_parse_well_formed(CapabilityNegotiationModel::empty(), data@, group_depth_limit());
            }
        }
        *self = CapabilityNegotiation::new();
        if merge_bytes(self, data, 100) {
            Ok(())
        } else {
            Err(parse_error())
        }
    }

    /// Same as `clear_and_parse`: the message has no required fields; on an error what the
    /// message then holds is unspecified.
    pub fn clear_and_parse_dont_enforce_required(&mut self, data: &[u8]) -> (r: Result<(), protobuf::ParseError>)
        ensures
            match merge_message::<CapabilityNegotiation>(CapabilityNegotiationModel::empty(), data@, group_depth_limit()) {
                Some(m) => r is Ok && final(self)@ == m && m.well_formed(),
                None => r is Err,
            },
    {
        self.clear_and_parse(data)
    }

    /// Makes this message a copy of `src`.
    pub fn copy_from(&mut self, src: CapabilityNegotiationView<'_>)
        ensures
            final(self)@ == src@,
    {
        *self = src.to_owned();
    }

    /// Moves the content of `src` here, leaving `src` empty.
    pub fn take_from(&mut self, src: &mut CapabilityNegotiation)
        ensures
            final(self)@ == old(src)@,
            final(src)@ == CapabilityNegotiationModel::empty(),
    {
        let mut taken = CapabilityNegotiation::new();
        std::mem::swap(&mut taken, src);
        *self = taken;
    }

    /// Merges `src` into this message (see `merge` on the model).
    pub fn merge_from(&mut self, src: CapabilityNegotiationView<'_>)
        ensures
            final(self)@ == old(self)@.merge(src@),
    {
        match src.msg {
            Some(other) => self.merge_fields_from(other),
            None => {
                proof {
                    lemma_capability_negotiation_merge_empty(self@);
                }
            },
        }
    }

    fn merge_fields_from(&mut self, other: &CapabilityNegotiation)
        ensures
            final(self)@ == old(self)@.merge(other@),
    {
        proof {
            reveal(CapabilityNegotiationModel::merge);
        }
        let ghost start = self@;
        if let Some(x) = &other.min_version {
            let mut sub = match self.min_version.take() {
                Some(y) => y,
                None => ProtocolVersion::new(),
            };
            sub.merge_fields_from(x);
            self.min_version = Some(sub);
        }
        if let Some(x) = &other.max_version {
            let mut sub = match self.max_version.take() {
                Some(y) => y,
                None => ProtocolVersion::new(),
            };
            sub.merge_fields_from(x);
            self.max_version = Some(sub);
        }
        let mut extra = clone_strings(other.supported_features.as_slice());
        let ghost before = self.supported_features@;
        self.supported_features.append(&mut extra);
        assert(self.supported_features@.map_values(|s: String| s@) =~= before.map_values(|s: String| s@) + other.supported_features@.map_values(|s: String| s@));
        let mut extra = clone_strings(other.required_features.as_slice());
        let ghost before = self.required_features@;
        self.required_features.append(&mut extra);
        assert(self.required_features@.map_values(|s: String| s@) =~= before.map_values(|s: String| s@) + other.required_features@.map_values(|s: String| s@));
        self.unknown.append(&other.unknown);
        assert(self@ =~= start.merge(other@));
    }

    /// Appends the wire form to `buf`.
    pub fn write_to(&self, buf: &mut Vec<u8>)
        ensures
            final(buf)@ == old(buf)@ + self@.encode(),
    {
        let ghost start = buf@;
        let ghost c1 = optional_message(1, match self@.min_version {
            Some(x) => Some(x.encode()),
            None => None,
        });
        let ghost c2 = optional_message(2, match self@.max_version {
            Some(x) => Some(x.encode()),
            None => None,
        });
        let ghost c3 = repeated_strings(3, self@.supported_features);
        let ghost c4 = repeated_strings(4, self@.required_features);
        let ghost c5 = self@.unknown;
        let ghost before0 = buf@;
        if let Some(x) = &self.min_version {
            let mut payload = Vec::new();
            x.write_to(&mut payload);
            assert(payload@ =~= x@.encode());
            write_delimited(buf, 1, payload.as_slice());
        }
        assert(buf@ =~= before0 + optional_message(
            1,
            match self@.min_version {
                Some(x) => Some(x.encode()),
                None => None,
            },
        ));
        let ghost mut written = c1;
        assert(buf@ == start + written);
        let ghost before1 = buf@;
        if let Some(x) = &self.max_version {
            let mut payload = Vec::new();
            x.write_to(&mut payload);
            assert(payload@ =~= x@.encode());
            write_delimited(buf, 2, payload.as_slice());
        }
        assert(buf@ =~= before1 + optional_message(
            2,
            match self@.max_version {
                Some(x) => Some(x.encode()),
                None => None,
            },
        ));
        proof {
            lemma_concat_associative(start, written, c2);
            written = written + c2;
        }
        assert(buf@ == start + written);
        write_repeated_strings(buf, 3, self.supported_features.as_slice());
        proof {
            lemma_concat_associative(start, written, c3);
            written = written + c3;
        }
        assert(buf@ == start + written);
        write_repeated_strings(buf, 4, self.required_features.as_slice());
        proof {
            lemma_concat_associative(start, written, c4);
            written = written + c4;
        }
        assert(buf@ == start + written);
        append_bytes(buf, self.unknown.as_slice());
        proof {
            lemma_concat_associative(start, written, c5);
            written = written + c5;
        }
        assert(buf@ == start + written);
        assert(self@.encode() == written) by {
            assert(written == c1 + c2 + c3 + c4 + c5);
            reveal(CapabilityNegotiationModel::encode);
        }
    }

    /// The wire form, refused when it is longer than `i32::MAX` bytes. The
    /// message is well formed, and when the unknown fields of its
    /// sub-messages fit in the nesting left to them the wire form reads back
    /// as the message.
    pub fn serialize(&self) -> (r: Result<Vec<u8>, protobuf::SerializeError>)
        ensures
            match r {
                Ok(bytes) => bytes@ == self@.encode() && self@.encode().len() <= 0x7fff_ffff,
                Err(_) => self@.encode().len() > 0x7fff_ffff,
            },
            self@.well_formed(),
            self@.encode().len() <= size_limit() && self@.well_formed_at(group_depth_limit())
                ==> merge_message::<CapabilityNegotiation>(CapabilityNegotiationModel::empty(), self@.encode(), group_depth_limit()) == Some(self@),
    {
        proof {
            lemma_capability_negotiation_well_formed(*self);
            if self@.encode().len() <= size_limit() && self@.well_formed_at(group_depth_limit()) {
                lemma_capability_negotiation_roundtrip(self@, group_depth_limit());
            }
        }
        let mut buf = Vec::new();
        self.write_to(&mut buf);
        assert(buf@ =~= self@.encode());
        if buf.len() > 0x7fff_ffff {
            return Err(serialize_error());
        }
        Ok(buf)
    }

    pub fn as_view(&self) -> (r: CapabilityNegotiationView<'_>)
        ensures
            r@ == self@,
    {
        CapabilityNegotiationView::new(self)
    }

    pub fn as_mut(&mut self) -> (r: CapabilityNegotiationMut<'_>)
        ensures
            r@ == old(self)@,
            *final(self) == *final(r.msg),
    {
        CapabilityNegotiationMut::new(self)
    }

    pub fn has_min_version(&self) -> (r: bool)
        ensures
            r == (self@.min_version is Some),
    {
        self.min_version.is_some()
    }

    pub fn clear_min_version(&mut self)
        ensures
            final(self)@ == (CapabilityNegotiationModel { min_version: None, ..old(self)@ }),
    {
        self.min_version = None;
    }

    pub fn min_version_opt(&self) -> (r: Option<ProtocolVersionView<'_>>)
        ensures
            match self@.min_version {
                Some(x) => r matches Some(v) && v@ == x,
                None => r is None,
            },
    {
        match &self.min_version {
            Some(x) => Some(ProtocolVersionView::new(x)),
            None => None,
        }
    }

    /// The sub-message, or the empty one when `min_version` is not set.
    pub fn min_version(&self) -> (r: ProtocolVersionView<'_>)
        ensures
            r@ == match self@.min_version {
                Some(x) => x,
                None => ProtocolVersionModel::empty(),
            },
    {
        match &self.min_version {
            Some(x) => ProtocolVersionView::new(x),
            None => ProtocolVersionView::default(),
        }
    }

    /// Write access to the sub-message; sets `min_version` to the empty one first
    /// when it is not set.
    pub fn min_version_mut(&mut self) -> (r: ProtocolVersionMut<'_>)
        ensures
            r@ == match old(self)@.min_version {
                Some(x) => x,
                None => ProtocolVersionModel::empty(),
            },
            final(self)@ == (CapabilityNegotiationModel { min_version: Some((*final(r.msg))@), ..old(self)@ }),
    {
        if self.min_version.is_none() {
            self.min_version = Some(ProtocolVersion::new());
        }
        ProtocolVersionMut::new(self.min_version.as_mut().unwrap())
    }

    pub fn set_min_version(&mut self, val: ProtocolVersion)
        ensures
            final(self)@ == (CapabilityNegotiationModel { min_version: Some(val@), ..old(self)@ }),
    {
        self.min_version = Some(val);
    }

    pub fn has_max_version(&self) -> (r: bool)
        ensures
            r == (self@.max_version is Some),
    {
        self.max_version.is_some()
    }

    pub fn clear_max_version(&mut self)
        ensures
            final(self)@ == (CapabilityNegotiationModel { max_version: None, ..old(self)@ }),
    {
        self.max_version = None;
    }

    pub fn max_version_opt(&self) -> (r: Option<ProtocolVersionView<'_>>)
        ensures
            match self@.max_version {
                Some(x) => r matches Some(v) && v@ == x,
                None => r is None,
            },
    {
        match &self.max_version {
            Some(x) => Some(ProtocolVersionView::new(x)),
            None => None,
        }
    }

    /// The sub-message, or the empty one when `max_version` is not set.
    pub fn max_version(&self) -> (r: ProtocolVersionView<'_>)
        ensures
            r@ == match self@.max_version {
                Some(x) => x,
                None => ProtocolVersionModel::empty(),
            },
    {
        match &self.max_version {
            Some(x) => ProtocolVersionView::new(x),
            None => ProtocolVersionView::default(),
        }
    }

    /// Write access to the sub-message; sets `max_version` to the empty one first
    /// when it is not set.
    pub fn max_version_mut(&mut self) -> (r: ProtocolVersionMut<'_>)
        ensures
            r@ == match old(self)@.max_version {
                Some(x) => x,
                None => ProtocolVersionModel::empty(),
            },
            final(self)@ == (CapabilityNegotiationModel { max_version: Some((*final(r.msg))@), ..old(self)@ }),
    {
        if self.max_version.is_none() {
            self.max_version = Some(ProtocolVersion::new());
        }
        ProtocolVersionMut::new(self.max_version.as_mut().unwrap())
    }

    pub fn set_max_version(&mut self, val: ProtocolVersion)
        ensures
            final(self)@ == (CapabilityNegotiationModel { max_version: Some(val@), ..old(self)@ }),
    {
        self.max_version = Some(val);
    }

    pub fn supported_features(&self) -> (r: &[String])
        ensures
            r@.map_values(|s: String| s@) == self@.supported_features,
    {
        self.supported_features.as_slice()
    }

    pub fn supported_features_mut(&mut self) -> (r: &mut Vec<String>)
        ensures
            (*r)@.map_values(|s: String| s@) == old(self)@.supported_features,
            final(self)@ == (CapabilityNegotiationModel { supported_features: (*final(r))@.map_values(|s: String| s@), ..old(self)@ }),
    {
        &mut self.supported_features
    }

    pub fn set_supported_features(&mut self, src: Vec<String>)
        ensures
            final(self)@ == (CapabilityNegotiationModel { supported_features: src@.map_values(|s: String| s@), ..old(self)@ }),
    {
        self.supported_features = src;
    }

    pub fn required_features(&self) -> (r: &[String])
        ensures
            r@.map_values(|s: String| s@) == self@.required_features,
    {
        self.required_features.as_slice()
    }

    pub fn required_features_mut(&mut self) -> (r: &mut Vec<String>)
        ensures
            (*r)@.map_values(|s: String| s@) == old(self)@.required_features,
            final(self)@ == (CapabilityNegotiationModel { required_features: (*final(r))@.map_values(|s: String| s@), ..old(self)@ }),
    {
        &mut self.required_features
    }

    pub fn set_required_features(&mut self, src: Vec<String>)
        ensures
            final(self)@ == (CapabilityNegotiationModel { required_features: src@.map_values(|s: String| s@), ..old(self)@ }),
    {
        self.required_features = src;
    }
}

impl Clone for CapabilityNegotiation {
    fn clone(&self) -> (r: Self)
        ensures
            r@ == self@,
    {
        let r = CapabilityNegotiation {
            min_version: match &self.min_version {
                Some(x) => Some(x.clone()),
                None => None,
            },
            max_version: match &self.max_version {
                Some(x) => Some(x.clone()),
                None => None,
            },
            supported_features: clone_strings(self.supported_features.as_slice()),
            required_features: clone_strings(self.required_features.as_slice()),
            unknown: self.unknown.copy(),
        };
        assert(r@.min_version == self@.min_version);
        assert(r@.max_version == self@.max_version);
        r
    }
}

impl Default for CapabilityNegotiation {
    fn default() -> (r: Self)
        ensures
            r@ == CapabilityNegotiationModel::empty(),
    {
        Self::new()
    }
}

/// Read access to a `CapabilityNegotiation`; the default view reads as the empty message.
#[derive(Clone, Copy)]
pub struct CapabilityNegotiationView<'msg> {
    msg: Option<&'msg CapabilityNegotiation>,
}

impl<'msg> View for CapabilityNegotiationView<'msg> {
    type V = CapabilityNegotiationModel;

    closed spec fn view(&self) -> CapabilityNegotiationModel {
        match self.msg {
            Some(m) => m@,
            None => CapabilityNegotiationModel::empty(),
        }
    }
}

impl<'msg> CapabilityNegotiationView<'msg> {
    pub fn new(msg: &'msg CapabilityNegotiation) -> (r: Self)
        ensures
            r@ == msg@,
    {
        CapabilityNegotiationView { msg: Some(msg) }
    }

    /// An owned copy of the message.
    pub fn to_owned(&self) -> (r: CapabilityNegotiation)
        ensures
            r@ == self@,
    {
        match self.msg {
            Some(m) => m.clone(),
            None => CapabilityNegotiation::new(),
        }
    }

    /// The wire form, refused when it is longer than `i32::MAX` bytes. The
    /// message is well formed, and when the unknown fields of its
    /// sub-messages fit in the nesting left to them the wire form reads back
    /// as the message.
    pub fn serialize(&self) -> (r: Result<Vec<u8>, protobuf::SerializeError>)
        ensures
            match r {
                Ok(bytes) => bytes@ == self@.encode() && self@.encode().len() <= 0x7fff_ffff,
                Err(_) => self@.encode().len() > 0x7fff_ffff,
            },
            self@.well_formed(),
            self@.encode().len() <= size_limit() && self@.well_formed_at(group_depth_limit())
                ==> merge_message::<CapabilityNegotiation>(CapabilityNegotiationModel::empty(), self@.encode(), group_depth_limit()) == Some(self@),
    {
        match self.msg {
            Some(m) => m.serialize(),
            None => CapabilityNegotiation::new().serialize(),
        }
    }

    pub fn has_min_version(self) -> (r: bool)
        ensures
            r == (self@.min_version is Some),
    {
        match self.msg {
            Some(m) => m.min_version.is_some(),
            None => false,
        }
    }

    pub fn min_version_opt(self) -> (r: Option<ProtocolVersionView<'msg>>)
        ensures
            match self@.min_version {
                Some(x) => r matches Some(v) && v@ == x,
                None => r is None,
            },
    {
        match self.msg {
            Some(m) => match &m.min_version {
                Some(x) => Some(ProtocolVersionView::new(x)),
                None => None,
            },
            None => None,
        }
    }

    /// The sub-message, or the empty one when `min_version` is not set.
    pub fn min_version(self) -> (r: ProtocolVersionView<'msg>)
        ensures
            r@ == match self@.min_version {
                Some(x) => x,
                None => ProtocolVersionModel::empty(),
            },
    {
        match self.msg {
            Some(m) => match &m.min_version {
                Some(x) => ProtocolVersionView::new(x),
                None => ProtocolVersionView::default(),
            },
            None => ProtocolVersionView::default(),
        }
    }

    pub fn has_max_version(self) -> (r: bool)
        ensures
            r == (self@.max_version is Some),
    {
        match self.msg {
            Some(m) => m.max_version.is_some(),
            None => false,
        }
    }

    pub fn max_version_opt(self) -> (r: Option<ProtocolVersionView<'msg>>)
        ensures
            match self@.max_version {
                Some(x) => r matches Some(v) && v@ == x,
                None => r is None,
            },
    {
        match self.msg {
            Some(m) => match &m.max_version {
                Some(x) => Some(ProtocolVersionView::new(x)),
                None => None,
            },
            None => None,
        }
    }

    /// The sub-message, or the empty one when `max_version` is not set.
    pub fn max_version(self) -> (r: ProtocolVersionView<'msg>)
        ensures
            r@ == match self@.max_version {
                Some(x) => x,
                None => ProtocolVersionModel::empty(),
            },
    {
        match self.msg {
            Some(m) => match &m.max_version {
                Some(x) => ProtocolVersionView::new(x),
                None => ProtocolVersionView::default(),
            },
            None => ProtocolVersionView::default(),
        }
    }

    pub fn supported_features(self) -> (r: &'msg [String])
        ensures
            r@.map_values(|s: String| s@) == self@.supported_features,
    {
        match self.msg {
            Some(m) => m.supported_features.as_slice(),
            None => {
                assert(Seq::<String>::empty().map_values(|s: String| s@) =~= Seq::empty());
                &[]
            },
        }
    }

    pub fn required_features(self) -> (r: &'msg [String])
        ensures
            r@.map_values(|s: String| s@) == self@.required_features,
    {
        match self.msg {
            Some(m) => m.required_features.as_slice(),
            None => {
                assert(Seq::<String>::empty().map_values(|s: String| s@) =~= Seq::empty());
                &[]
            },
        }
    }
}

impl<'msg> Default for CapabilityNegotiationView<'msg> {
    fn default() -> (r: Self)
        ensures
            r@ == CapabilityNegotiationModel::empty(),
    {
        CapabilityNegotiationView { msg: None }
    }
}

/// Write access to a `CapabilityNegotiation` held elsewhere.
pub struct CapabilityNegotiationMut<'msg> {
    /// The message written through this handle.
    pub msg: &'msg mut CapabilityNegotiation,
}

impl<'msg> View for CapabilityNegotiationMut<'msg> {
    type V = CapabilityNegotiationModel;

    open spec fn view(&self) -> CapabilityNegotiationModel {
        (*self.msg)@
    }
}

impl<'msg> CapabilityNegotiationMut<'msg> {
    pub fn new(msg: &'msg mut CapabilityNegotiation) -> (r: Self)
        ensures
            r@ == old(msg)@,
            *final(msg) == *final(r.msg),
    {
        CapabilityNegotiationMut { msg }
    }

    /// An owned copy of the message.
    pub fn to_owned(&self) -> (r: CapabilityNegotiation)
        ensures
            r@ == self@,
    {
        self.msg.clone()
    }

    pub fn as_view(&self) -> (r: CapabilityNegotiationView<'_>)
        ensures
            r@ == self@,
    {
        CapabilityNegotiationView::new(self.msg)
    }

    /// The wire form, refused when it is longer than `i32::MAX` bytes. The
    /// message is well formed, and when the unknown fields of its
    /// sub-messages fit in the nesting left to them the wire form reads back
    /// as the message.
    pub fn serialize(&self) -> (r: Result<Vec<u8>, protobuf::SerializeError>)
        ensures
            match r {
                Ok(bytes) => bytes@ == self@.encode() && self@.encode().len() <= 0x7fff_ffff,
                Err(_) => self@.encode().len() > 0x7fff_ffff,
            },
            self@.well_formed(),
            self@.encode().len() <= size_limit() && self@.well_formed_at(group_depth_limit())
                ==> merge_message::<CapabilityNegotiation>(CapabilityNegotiationModel::empty(), self@.encode(), group_depth_limit()) == Some(self@),
    {
        self.msg.serialize()
    }

    /// Resets every field to its default.
    pub fn clear(&mut self)
        ensures
            final(self)@ == CapabilityNegotiationModel::empty(),
            *final(final(self).msg) == *final(old(self).msg),
    {
        self.msg.clear();
    }

    /// Replaces the message by the one `data` encodes.
    pub fn clear_and_parse(&mut self, data: &[u8]) -> (r: Result<(), protobuf::ParseError>)
        ensures
            match merge_message::<CapabilityNegotiation>(CapabilityNegotiationModel::empty(), data@, group_depth_limit()) {
                Some(m) => r is Ok && final(self)@ == m && m.well_formed(),
                None => r is Err,
            },
            *final(final(self).msg) == *final(old(self).msg),
    {
        self.msg.clear_and_parse(data)
    }

    /// Replaces the message by the one `data` encodes.
    pub fn clear_and_parse_dont_enforce_required(&mut self, data: &[u8]) -> (r: Result<(), protobuf::ParseError>)
        ensures
            match merge_message::<CapabilityNegotiation>(CapabilityNegotiationModel::empty(), data@, group_depth_limit()) {
                Some(m) => r is Ok && final(self)@ == m && m.well_formed(),
                None => r is Err,
            },
            *final(final(self).msg) == *final(old(self).msg),
    {
        self.msg.clear_and_parse_dont_enforce_required(data)
    }

    /// Makes the message a copy of `src`.
    pub fn copy_from(&mut self, src: CapabilityNegotiationView<'_>)
        ensures
            final(self)@ == src@,
            *final(final(self).msg) == *final(old(self).msg),
    {
        self.msg.copy_from(src);
    }

    /// Merges `src` into the message.
    pub fn merge_from(&mut self, src: CapabilityNegotiationView<'_>)
        ensures
            final(self)@ == old(self)@.merge(src@),
            *final(final(self).msg) == *final(old(self).msg),
    {
        self.msg.merge_from(src);
    }

    pub fn has_min_version(&self) -> (r: bool)
        ensures
            r == (self@.min_version is Some),
    {
        self.msg.has_min_version()
    }

    pub fn clear_min_version(&mut self)
        ensures
            final(self)@ == (CapabilityNegotiationModel { min_version: None, ..old(self)@ }),
            *final(final(self).msg) == *final(old(self).msg),
    {
        self.msg.clear_min_version();
    }

    pub fn min_version_opt(&self) -> (r: Option<ProtocolVersionView<'_>>)
        ensures
            match self@.min_version {
                Some(x) => r matches Some(v) && v@ == x,
                None => r is None,
            },
    {
        self.msg.min_version_opt()
    }

    /// The sub-message, or the empty one when `min_version` is not set.
    pub fn min_version(&self) -> (r: ProtocolVersionView<'_>)
        ensures
            r@ == match self@.min_version {
                Some(x) => x,
                None => ProtocolVersionModel::empty(),
            },
    {
        self.msg.min_version()
    }

    /// Write access to the sub-message; sets `min_version` to the empty one first
    /// when it is not set.
    pub fn min_version_mut(&mut self) -> (r: ProtocolVersionMut<'_>)
        ensures
            r@ == match old(self)@.min_version {
                Some(x) => x,
                None => ProtocolVersionModel::empty(),
            },
            final(self)@ == (CapabilityNegotiationModel { min_version: Some((*final(r.msg))@), ..old(self)@ }),
            *final(final(self).msg) == *final(old(self).msg),
    {
        self.msg.min_version_mut()
    }

    pub fn set_min_version(&mut self, val: ProtocolVersion)
        ensures
            final(self)@ == (CapabilityNegotiationModel { min_version: Some(val@), ..old(self)@ }),
            *final(final(self).msg) == *final(old(self).msg),
    {
        self.msg.set_min_version(val);
    }

    pub fn has_max_version(&self) -> (r: bool)
        ensures
            r == (self@.max_version is Some),
    {
        self.msg.has_max_version()
    }

    pub fn clear_max_version(&mut self)
        ensures
            final(self)@ == (CapabilityNegotiationModel { max_version: None, ..old(self)@ }),
            *final(final(self).msg) == *final(old(self).msg),
    {
        self.msg.clear_max_version();
    }

    pub fn max_version_opt(&self) -> (r: Option<ProtocolVersionView<'_>>)
        ensures
            match self@.max_version {
                Some(x) => r matches Some(v) && v@ == x,
                None => r is None,
            },
    {
        self.msg.max_version_opt()
    }

    /// The sub-message, or the empty one when `max_version` is not set.
    pub fn max_version(&self) -> (r: ProtocolVersionView<'_>)
        ensures
            r@ == match self@.max_version {
                Some(x) => x,
                None => ProtocolVersionModel::empty(),
            },
    {
        self.msg.max_version()
    }

    /// Write access to the sub-message; sets `max_version` to the empty one first
    /// when it is not set.
    pub fn max_version_mut(&mut self) -> (r: ProtocolVersionMut<'_>)
        ensures
            r@ == match old(self)@.max_version {
                Some(x) => x,
                None => ProtocolVersionModel::empty(),
            },
            final(self)@ == (CapabilityNegotiationModel { max_version: Some((*final(r.msg))@), ..old(self)@ }),
            *final(final(self).msg) == *final(old(self).msg),
    {
        self.msg.max_version_mut()
    }

    pub fn set_max_version(&mut self, val: ProtocolVersion)
        ensures
            final(self)@ == (CapabilityNegotiationModel { max_version: Some(val@), ..old(self)@ }),
            *final(final(self).msg) == *final(old(self).msg),
    {
        self.msg.set_max_version(val);
    }

    pub fn supported_features(&self) -> (r: &[String])
        ensures
            r@.map_values(|s: String| s@) == self@.supported_features,
    {
        self.msg.supported_features()
    }

    pub fn supported_features_mut(&mut self) -> (r: &mut Vec<String>)
        ensures
            (*r)@.map_values(|s: String| s@) == old(self)@.supported_features,
            final(self)@ == (CapabilityNegotiationModel { supported_features: (*final(r))@.map_values(|s: String| s@), ..old(self)@ }),
            *final(final(self).msg) == *final(old(self).msg),
    {
        self.msg.supported_features_mut()
    }

    pub fn set_supported_features(&mut self, src: Vec<String>)
        ensures
            final(self)@ == (CapabilityNegotiationModel { supported_features: src@.map_values(|s: String| s@), ..old(self)@ }),
            *final(final(self).msg) == *final(old(self).msg),
    {
        self.msg.set_supported_features(src);
    }

    pub fn required_features(&self) -> (r: &[String])
        ensures
            r@.map_values(|s: String| s@) == self@.required_features,
    {
        self.msg.required_features()
    }

    pub fn required_features_mut(&mut self) -> (r: &mut Vec<String>)
        ensures
            (*r)@.map_values(|s: String| s@) == old(self)@.required_features,
            final(self)@ == (CapabilityNegotiationModel { required_features: (*final(r))@.map_values(|s: String| s@), ..old(self)@ }),
            *final(final(self).msg) == *final(old(self).msg),
    {
        self.msg.required_features_mut()
    }

    pub fn set_required_features(&mut self, src: Vec<String>)
        ensures
            final(self)@ == (CapabilityNegotiationModel { required_features: src@.map_values(|s: String| s@), ..old(self)@ }),
            *final(final(self).msg) == *final(old(self).msg),
    {
        self.msg.set_required_features(src);
    }
}

/// The content of a `CapabilityNegotiationResponse`.
pub struct CapabilityNegotiationResponseModel {
    pub selected_version: Option<ProtocolVersionModel>,
    pub supported_features: Seq<Seq<char>>,
    pub unsupported_features: Seq<Seq<char>>,
    pub compatibility: bool,
    /// The fields read but not understood, as they came, in order.
    pub unknown: Seq<u8>,
}

impl CapabilityNegotiationResponseModel {
    /// The message with every field at its default.
    pub open spec fn empty() -> Self {
        CapabilityNegotiationResponseModel {
            selected_version: None,
            supported_features: Seq::empty(),
            unsupported_features: Seq::empty(),
            compatibility: false,
            unknown: Seq::empty(),
        }
    }

    /// The wire form: fields in number order, defaults and absent
    /// sub-messages left out, then the unknown fields as they came.
    #[verifier::opaque]
    pub open spec fn encode(self) -> Seq<u8> {
        optional_message(1, match self.selected_version {
            Some(x) => Some(x.encode()),
            None => None,
        })
            + repeated_strings(2, self.supported_features)
            + repeated_strings(3, self.unsupported_features)
            + varint_field(4, if self.compatibility { 1 } else { 0 })
            + self.unknown
    }

    /// Whether a field is kept, as it came, among the unknown fields: its
    /// number is not one of this message's, or it comes with another wire
    /// type than its field is written with.
    pub open spec fn keeps_unknown(field: nat, value: WireValue) -> bool {
        if field == 1 {
            !(value is Delimited)
        } else if field == 2 {
            !(value is Delimited)
        } else if field == 3 {
            !(value is Delimited)
        } else if field == 4 {
            !(value is Varint)
        } else {
            true
        }
    }

    /// `keeps_unknown` as a function.
    pub open spec fn keeps() -> spec_fn(nat, WireValue) -> bool {
        |field: nat, value: WireValue| CapabilityNegotiationResponseModel::keeps_unknown(field, value)
    }

    /// How one field of the wire form changes the message; `raw` is the
    /// field as it came. `None` when the field's content is malformed.
    #[verifier::opaque]
    pub open spec fn apply(self, field: nat, value: WireValue, raw: Seq<u8>, depth: nat) -> Option<Self> {
        if Self::keeps_unknown(field, value) {
            Some(CapabilityNegotiationResponseModel { unknown: self.unknown + raw, ..self })
        } else if field == 1 {
            match value {
                WireValue::Delimited(b) => if depth == 0 {
                    None
                } else {
                    match merge_message::<ProtocolVersion>(
                        match self.selected_version {
                            Some(x) => x,
                            None => ProtocolVersionModel::empty(),
                        },
                        b,
                        (depth - 1) as nat,
                    ) {
                        Some(x) => Some(CapabilityNegotiationResponseModel { selected_version: Some(x), ..self }),
                        None => None,
                    }
                },
                _ => Some(self),
            }
        } else if field == 2 {
            match value {
                WireValue::Delimited(b) => if valid_utf8(b) {
                    Some(CapabilityNegotiationResponseModel { supported_features: self.supported_features.push(decode_utf8(b)), ..self })
                } else {
                    None
                },
                _ => Some(self),
            }
        } else if field == 3 {
            match value {
                WireValue::Delimited(b) => if valid_utf8(b) {
                    Some(CapabilityNegotiationResponseModel { unsupported_features: self.unsupported_features.push(decode_utf8(b)), ..self })
                } else {
                    None
                },
                _ => Some(self),
            }
        } else if field == 4 {
            match value {
                WireValue::Varint(v) => Some(CapabilityNegotiationResponseModel { compatibility: v != 0, ..self }),
                _ => Some(self),
            }
        } else {
            Some(self)
        }
    }

    /// `other` merged into this message, as protobuf merges: a scalar, string
    /// or bytes field set in `other` replaces the one here, repeated fields
    /// are appended, sub-messages are merged, map entries inserted and
    /// unknown fields appended.
    #[verifier::opaque]
    pub open spec fn merge(self, other: Self) -> Self {
        CapabilityNegotiationResponseModel {
            selected_version: match other.selected_version {
                Some(x) => Some(match self.selected_version {
                    Some(y) => y.merge(x),
                    None => ProtocolVersionModel::empty().merge(x),
                }),
                None => self.selected_version,
            },
            supported_features: self.supported_features + other.supported_features,
            unsupported_features: self.unsupported_features + other.unsupported_features,
            compatibility: if other.compatibility { true } else { self.compatibility },
            unknown: self.unknown + other.unknown,
        }
    }

    /// What writing the message out and reading it back relies on: the
    /// unknown fields are whole fields this message does not read, and
    /// the same holds of every sub-message.
    pub open spec fn well_formed(self) -> bool {
        &&& unknown_fields::<CapabilityNegotiationResponse>(self.unknown, group_depth_limit())
        &&& match self.selected_version {
            Some(x) => x.well_formed(),
            None => true,
        }
    }

    /// What reading the wire form back with `depth` levels of nesting left
    /// relies on: the message is well formed, its unknown fields read as
    /// whole fields with `depth` levels, and each sub-message reads back
    /// with one level less.
    pub open spec fn well_formed_at(self, depth: nat) -> bool {
        &&& self.well_formed()
        &&& unknown_fields::<CapabilityNegotiationResponse>(self.unknown, depth)
        &&& match self.selected_version {
            Some(x) => depth >= 1 && x.well_formed_at((depth - 1) as nat),
            None => true,
        }
    }
}

/// Reading the `selected_version` field as `b` writes it merges it into `m`.
proof fn lemma_capability_negotiation_response_read_selected_version(m: CapabilityNegotiationResponseModel, b: CapabilityNegotiationResponseModel, rest: Seq<u8>, depth: nat)
    requires
        optional_message(1, match b.selected_version {
            Some(x) => Some(x.encode()),
            None => None,
        }).len() <= size_limit(),
        b.well_formed_at(depth),
    ensures
        merge_message::<CapabilityNegotiationResponse>(m, optional_message(1, match b.selected_version {
            Some(x) => Some(x.encode()),
            None => None,
        }) + rest, depth) == merge_message::<CapabilityNegotiationResponse>(
            CapabilityNegotiationResponseModel { selected_version: match b.selected_version {
                Some(x) => Some(match m.selected_version {
                    Some(y) => y.merge(x),
                    None => ProtocolVersionModel::empty().merge(x),
                }),
                None => m.selected_version,
            }, ..m },
            rest,
            depth,
        ),
{
    let next = CapabilityNegotiationResponseModel { selected_version: match b.selected_version {
        Some(x) => Some(match m.selected_version {
            Some(y) => y.merge(x),
            None => ProtocolVersionModel::empty().merge(x),
        }),
        None => m.selected_version,
    }, ..m };
    reveal(CapabilityNegotiationResponseModel::apply);
    match b.selected_version {
        Some(x) => {
            let sub = match m.selected_version {
                Some(y) => y,
                None => ProtocolVersionModel::empty(),
            };
            lemma_protocol_version_merge_wire(sub, x, (depth - 1) as nat);
            lemma_merge_delimited::<CapabilityNegotiationResponse>(m, 1, x.encode(), rest, next, depth);
        },
        None => {
            assert(optional_message(1, match b.selected_version {
            Some(x) => Some(x.encode()),
            None => None,
        }) + rest =~= rest);
        },
    }
}

/// Reading the `compatibility` field as `b` writes it merges it into `m`.
proof fn lemma_capability_negotiation_response_read_compatibility(m: CapabilityNegotiationResponseModel, b: CapabilityNegotiationResponseModel, rest: Seq<u8>, depth: nat)
    requires
        varint_field(4, if b.compatibility { 1 } else { 0 }).len() <= size_limit(),
    ensures
        merge_message::<CapabilityNegotiationResponse>(m, varint_field(4, if b.compatibility { 1 } else { 0 }) + rest, depth) == merge_message::<CapabilityNegotiationResponse>(
            CapabilityNegotiationResponseModel { compatibility: if b.compatibility { true } else { m.compatibility }, ..m },
            rest,
            depth,
        ),
{
    let next = CapabilityNegotiationResponseModel { compatibility: if b.compatibility { true } else { m.compatibility }, ..m };
    reveal(CapabilityNegotiationResponseModel::apply);
    lemma_merge_varint_field::<CapabilityNegotiationResponse>(m, 4, if b.compatibility { 1 } else { 0 }, rest, next, depth);
}

/// Reading the unknown fields as `b` writes them adds them to those of `m`.
proof fn lemma_capability_negotiation_response_read_unknown(m: CapabilityNegotiationResponseModel, b: CapabilityNegotiationResponseModel, rest: Seq<u8>, depth: nat)
    requires
        b.unknown.len() <= size_limit(),
        b.well_formed_at(depth),
    ensures
        merge_message::<CapabilityNegotiationResponse>(m, b.unknown + rest, depth) == merge_message::<CapabilityNegotiationResponse>(
            CapabilityNegotiationResponseModel { unknown: m.unknown + b.unknown, ..m },
            rest,
            depth,
        ),
{
    lemma_merge_unknown::<CapabilityNegotiationResponse>(m, b.unknown, rest, depth);
}

/// Reading the wire form of `b` into `a`, with `depth` levels of nesting left,
/// gives `b` merged into `a`.
pub proof fn lemma_capability_negotiation_response_merge_wire(a: CapabilityNegotiationResponseModel, b: CapabilityNegotiationResponseModel, depth: nat)
    requires
        b.encode().len() <= size_limit(),
        b.well_formed_at(depth),
    ensures
        merge_message::<CapabilityNegotiationResponse>(a, b.encode(), depth) == Some(a.merge(b)),
{
    let c1 = optional_message(1, match b.selected_version {
        Some(x) => Some(x.encode()),
        None => None,
    });
    let c2 = repeated_strings(2, b.supported_features);
    let c3 = repeated_strings(3, b.unsupported_features);
    let c4 = varint_field(4, if b.compatibility { 1 } else { 0 });
    let c5 = b.unknown;
    assert(b.encode() == c1 + c2 + c3 + c4 + c5) by {
        reveal(CapabilityNegotiationResponseModel::encode);
    }
    let m0 = a;
    let m1 = CapabilityNegotiationResponseModel { selected_version: match b.selected_version {
        Some(x) => Some(match m0.selected_version {
            Some(y) => y.merge(x),
            None => ProtocolVersionModel::empty().merge(x),
        }),
        None => m0.selected_version,
    }, ..m0 };
    lemma_capability_negotiation_response_read_selected_version(m0, b, Seq::empty(), depth);
    assert(c1 + Seq::empty() =~= c1);
    lemma_merge_nothing::<CapabilityNegotiationResponse>(m1, depth);
    let m2 = CapabilityNegotiationResponseModel { supported_features: m1.supported_features + b.supported_features, ..m1 };
    lemma_capability_negotiation_response_supported_features(m1, b.supported_features, Seq::empty(), depth);
    assert(c2 + Seq::empty() =~= c2);
    lemma_merge_nothing::<CapabilityNegotiationResponse>(m2, depth);
    lemma_merge_concat::<CapabilityNegotiationResponse>(a, c1, c2, depth);
    let m3 = CapabilityNegotiationResponseModel { unsupported_features: m2.unsupported_features + b.unsupported_features, ..m2 };
    lemma_capability_negotiation_response_unsupported_features(m2, b.unsupported_features, Seq::empty(), depth);
    assert(c3 + Seq::empty() =~= c3);
    lemma_merge_nothing::<CapabilityNegotiationResponse>(m3, depth);
    lemma_merge_concat::<CapabilityNegotiationResponse>(a, c1 + c2, c3, depth);
    let m4 = CapabilityNegotiationResponseModel { compatibility: if b.compatibility { true } else { m3.compatibility }, ..m3 };
    lemma_capability_negotiation_response_read_compatibility(m3, b, Seq::empty(), depth);
    assert(c4 + Seq::empty() =~= c4);
    lemma_merge_nothing::<CapabilityNegotiationResponse>(m4, depth);
    lemma_merge_concat::<CapabilityNegotiationResponse>(a, c1 + c2 + c3, c4, depth);
    let m5 = CapabilityNegotiationResponseModel { unknown: m4.unknown + b.unknown, ..m4 };
    lemma_capability_negotiation_response_read_unknown(m4, b, Seq::empty(), depth);
    assert(c5 + Seq::empty() =~= c5);
    lemma_merge_nothing::<CapabilityNegotiationResponse>(m5, depth);
    lemma_merge_concat::<CapabilityNegotiationResponse>(a, c1 + c2 + c3 + c4, c5, depth);
    assert(m5 == a.merge(b)) by {
        reveal(CapabilityNegotiationResponseModel::merge);
    }
}

/// Merging the empty message changes nothing.
pub proof fn lemma_capability_negotiation_response_merge_empty(a: CapabilityNegotiationResponseModel)
    ensures
        a.merge(CapabilityNegotiationResponseModel::empty()) == a,
{
    reveal(CapabilityNegotiationResponseModel::merge);
    assert(a.supported_features + Seq::empty() =~= a.supported_features);
    assert(a.unsupported_features + Seq::empty() =~= a.unsupported_features);
    assert(a.unknown + Seq::empty() =~= a.unknown);
    assert(a.merge(CapabilityNegotiationResponseModel::empty()) =~= a);
}

/// Merging a message into the empty one gives that message.
pub proof fn lemma_capability_negotiation_response_empty_merge(b: CapabilityNegotiationResponseModel)
    ensures
        CapabilityNegotiationResponseModel::empty().merge(b) == b,
{
    reveal(CapabilityNegotiationResponseModel::merge);
    if let Some(x) = b.selected_version {
        lemma_protocol_version_empty_merge(x);
    }
    assert(Seq::empty() + b.supported_features =~= b.supported_features);
    assert(Seq::empty() + b.unsupported_features =~= b.unsupported_features);
    assert(Seq::empty() + b.unknown =~= b.unknown);
    assert(CapabilityNegotiationResponseModel::empty().merge(b) =~= b);
}

/// Writing a message out and reading it back, with `depth` levels of
/// nesting left (`group_depth_limit()` for a message read on its own),
/// gives the same message.
pub proof fn lemma_capability_negotiation_response_roundtrip(m: CapabilityNegotiationResponseModel, depth: nat)
    requires
        m.encode().len() <= size_limit(),
        m.well_formed_at(depth),
    ensures
        merge_message::<CapabilityNegotiationResponse>(CapabilityNegotiationResponseModel::empty(), m.encode(), depth) == Some(m),
{
    lemma_capability_negotiation_response_merge_wire(CapabilityNegotiationResponseModel::empty(), m, depth);
    lemma_capability_negotiation_response_empty_merge(m);
}

/// Reading two encoded messages written one after the other, with `depth`
/// levels of nesting left, gives the second merged into the first.
pub proof fn lemma_capability_negotiation_response_concat(a: CapabilityNegotiationResponseModel, b: CapabilityNegotiationResponseModel, depth: nat)
    requires
        a.encode().len() <= size_limit(),
        b.encode().len() <= size_limit(),
        a.well_formed_at(depth),
        b.well_formed_at(depth),
    ensures
        merge_message::<CapabilityNegotiationResponse>(CapabilityNegotiationResponseModel::empty(), a.encode() + b.encode(), depth) == Some(a.merge(b)),
{
    lemma_capability_negotiation_response_roundtrip(a, depth);
    lemma_merge_concat::<CapabilityNegotiationResponse>(CapabilityNegotiationResponseModel::empty(), a.encode(), b.encode(), depth);
    lemma_capability_negotiation_response_merge_wire(a, b, depth);
}

/// Merging two well-formed messages gives a well-formed message.
pub proof fn lemma_capability_negotiation_response_merge_well_formed(a: CapabilityNegotiationResponseModel, b: CapabilityNegotiationResponseModel)
    requires
        a.well_formed(),
        b.well_formed(),
    ensures
        a.merge(b).well_formed(),
{
    reveal(CapabilityNegotiationResponseModel::merge);
    lemma_unknown_fields_concat::<CapabilityNegotiationResponse>(a.unknown, b.unknown, group_depth_limit());
    if let Some(x) = b.selected_version {
        match a.selected_version {
            Some(y) => lemma_protocol_version_merge_well_formed(y, x),
            None => lemma_protocol_version_merge_well_formed(ProtocolVersionModel::empty(), x),
        }
    }
}

/// Reading one whole field into a well-formed message keeps it well formed.
proof fn lemma_capability_negotiation_response_apply_well_formed(m: CapabilityNegotiationResponseModel, field: nat, value: WireValue, raw: Seq<u8>, depth: nat)
    requires
        m.well_formed(),
        depth <= group_depth_limit(),
        decode_field(raw, depth) == Some((field, value, raw.len())),
        m.apply(field, value, raw, depth) is Some,
    ensures
        m.apply(field, value, raw, depth)->0.well_formed(),
{
    reveal(CapabilityNegotiationResponseModel::apply);
    if CapabilityNegotiationResponseModel::keeps_unknown(field, value) {
        lemma_decode_field_deeper(raw, depth, group_depth_limit());
        lemma_unknown_field::<CapabilityNegotiationResponse>(raw, field, value, group_depth_limit());
        lemma_unknown_fields_concat::<CapabilityNegotiationResponse>(m.unknown, raw, group_depth_limit());
    } else if field == 1 {
        if let WireValue::Delimited(b) = value {
            let sub = match m.selected_version {
                Some(x) => x,
                None => ProtocolVersionModel::empty(),
            };
            lemma_protocol_version_parse_well_formed(sub, b, (depth - 1) as nat);
        }
    }
}

/// Reading whole fields into a well-formed message, with at most
/// `group_depth_limit()` levels of nesting left, keeps it well formed.
pub proof fn lemma_capability_negotiation_response_parse_well_formed(m: CapabilityNegotiationResponseModel, s: Seq<u8>, depth: nat)
    requires
        m.well_formed(),
        depth <= group_depth_limit(),
        merge_message::<CapabilityNegotiationResponse>(m, s, depth) is Some,
    ensures
        merge_message::<CapabilityNegotiationResponse>(m, s, depth)->0.well_formed(),
{
    assert forall|x: CapabilityNegotiationResponseModel, field: nat, value: WireValue, raw: Seq<u8>|
        x.well_formed() && decode_field(raw, depth) == Some((field, value, raw.len())) && #[trigger] CapabilityNegotiationResponse::apply_wire(
            x,
            field,
            value,
            raw,
            depth,
        ) is Some implies CapabilityNegotiationResponse::apply_wire(x, field, value, raw, depth)->0.well_formed() by {
        lemma_capability_negotiation_response_apply_well_formed(x, field, value, raw, depth);
    }
    lemma_merge_preserves::<CapabilityNegotiationResponse>(m, s, |x: CapabilityNegotiationResponseModel| x.well_formed(), depth);
}

/// Reading the elements of `supported_features` appends them, in order.
proof fn lemma_capability_negotiation_response_supported_features(m: CapabilityNegotiationResponseModel, items: Seq<Seq<char>>, rest: Seq<u8>, depth: nat)
    requires
        repeated_strings(2, items).len() <= size_limit(),
    ensures
        merge_message::<CapabilityNegotiationResponse>(m, repeated_strings(2, items) + rest, depth) == merge_message::<CapabilityNegotiationResponse>(
            (CapabilityNegotiationResponseModel { supported_features: m.supported_features + items, ..m }),
            rest,
            depth,
        ),
    decreases items.len(),
{
    reveal(CapabilityNegotiationResponseModel::apply);
    if items.len() == 0 {
        assert(m.supported_features + items =~= m.supported_features);
        assert(repeated_strings(2, items) + rest =~= rest);
    } else {
        let next = CapabilityNegotiationResponseModel { supported_features: m.supported_features.push(items[0]), ..m };
        encode_utf8_decode_utf8(items[0]);
        encode_utf8_valid_utf8(items[0]);
        assert(items.map_values(|s: Seq<char>| encode_utf8(s)).drop_first() =~= items.drop_first().map_values(
            |s: Seq<char>| encode_utf8(s),
        ));
        assert(repeated_strings(2, items) + rest =~= delimited(2, encode_utf8(items[0])) + (repeated_strings(2, items.drop_first()) + rest));
        lemma_merge_delimited::<CapabilityNegotiationResponse>(m, 2, encode_utf8(items[0]), repeated_strings(2, items.drop_first()) + rest, next, depth);
        lemma_capability_negotiation_response_supported_features(next, items.drop_first(), rest, depth);
        assert(next.supported_features + items.drop_first() =~= m.supported_features + items);
    }
}

/// Reading the elements of `unsupported_features` appends them, in order.
proof fn lemma_capability_negotiation_response_unsupported_features(m: CapabilityNegotiationResponseModel, items: Seq<Seq<char>>, rest: Seq<u8>, depth: nat)
    requires
        repeated_strings(3, items).len() <= size_limit(),
    ensures
        merge_message::<CapabilityNegotiationResponse>(m, repeated_strings(3, items) + rest, depth) == merge_message::<CapabilityNegotiationResponse>(
            (CapabilityNegotiationResponseModel { unsupported_features: m.unsupported_features + items, ..m }),
            rest,
            depth,
        ),
    decreases items.len(),
{
    reveal(CapabilityNegotiationResponseModel::apply);
    if items.len() == 0 {
        assert(m.unsupported_features + items =~= m.unsupported_features);
        assert(repeated_strings(3, items) + rest =~= rest);
    } else {
        let next = CapabilityNegotiationResponseModel { unsupported_features: m.unsupported_features.push(items[0]), ..m };
        encode_utf8_decode_utf8(items[0]);
        encode_utf8_valid_utf8(items[0]);
        assert(items.map_values(|s: Seq<char>| encode_utf8(s)).drop_first() =~= items.drop_first().map_values(
            |s: Seq<char>| encode_utf8(s),
        ));
        assert(repeated_strings(3, items) + rest =~= delimited(3, encode_utf8(items[0])) + (repeated_strings(3, items.drop_first()) + rest));
        lemma_merge_delimited::<CapabilityNegotiationResponse>(m, 3, encode_utf8(items[0]), repeated_strings(3, items.drop_first()) + rest, next, depth);
        lemma_capability_negotiation_response_unsupported_features(next, items.drop_first(), rest, depth);
        assert(next.unsupported_features + items.drop_first() =~= m.unsupported_features + items);
    }
}

/// The answer to a `CapabilityNegotiation`: the version chosen and which features can be used.
pub struct CapabilityNegotiationResponse {
    selected_version: Option<ProtocolVersion>,
    supported_features: Vec<String>,
    unsupported_features: Vec<String>,
    compatibility: bool,
    unknown: CapabilityNegotiationResponseUnknown,
}

impl View for CapabilityNegotiationResponse {
    type V = CapabilityNegotiationResponseModel;

    closed spec fn view(&self) -> CapabilityNegotiationResponseModel {
        CapabilityNegotiationResponseModel {
            selected_version: match self.selected_version {
                Some(x) => Some(x@),
                None => None,
            },
            supported_features: self.supported_features@.map_values(|s: String| s@),
            unsupported_features: self.unsupported_features@.map_values(|s: String| s@),
            compatibility: self.compatibility,
            unknown: self.unknown@,
        }
    }
}

/// The unknown fields of a `CapabilityNegotiationResponse`: whole fields it does not read, as they
/// came, in order.
struct CapabilityNegotiationResponseUnknown {
    bytes: Vec<u8>,
}

impl View for CapabilityNegotiationResponseUnknown {
    type V = Seq<u8>;

    closed spec fn view(&self) -> Seq<u8> {
        if unknown_run(self.bytes@, CapabilityNegotiationResponseModel::keeps(), group_depth_limit()) {
            self.bytes@
        } else {
            Seq::empty()
        }
    }
}

impl CapabilityNegotiationResponseUnknown {
    #[verifier::type_invariant]
    closed spec fn whole(self) -> bool {
        unknown_run(self.bytes@, CapabilityNegotiationResponseModel::keeps(), group_depth_limit())
    }

    fn new() -> (r: Self)
        ensures
            r@ == Seq::<u8>::empty(),
    {
        proof {
            lemma_unknown_run_empty(CapabilityNegotiationResponseModel::keeps(), group_depth_limit());
        }
        CapabilityNegotiationResponseUnknown { bytes: Vec::new() }
    }

    /// Adds one whole field that the message does not read.
    fn push_field(&mut self, raw: &[u8], Ghost(field): Ghost<nat>, Ghost(value): Ghost<WireValue>)
        requires
            decode_field(raw@, group_depth_limit()) == Some((field, value, raw@.len())),
            CapabilityNegotiationResponseModel::keeps_unknown(field, value),
        ensures
            final(self)@ == old(self)@ + raw@,
    {
        proof {
            use_type_invariant(&*self);
            lemma_unknown_run_field(raw@, field, value, CapabilityNegotiationResponseModel::keeps(), group_depth_limit());
            lemma_unknown_run_concat(self.bytes@, raw@, CapabilityNegotiationResponseModel::keeps(), group_depth_limit());
            lemma_unknown_run_empty(CapabilityNegotiationResponseModel::keeps(), group_depth_limit());
        }
        let mut bytes = Vec::new();
        std::mem::swap(&mut bytes, &mut self.bytes);
        append_bytes(&mut bytes, raw);
        self.bytes = bytes;
    }

    /// Adds the unknown fields of another message of the same kind.
    fn append(&mut self, other: &Self)
        ensures
            final(self)@ == old(self)@ + other@,
    {
        proof {
            use_type_invariant(&*self);
            use_type_invariant(other);
            lemma_unknown_run_concat(self.bytes@, other.bytes@, CapabilityNegotiationResponseModel::keeps(), group_depth_limit());
            lemma_unknown_run_empty(CapabilityNegotiationResponseModel::keeps(), group_depth_limit());
        }
        let mut bytes = Vec::new();
        std::mem::swap(&mut bytes, &mut self.bytes);
        append_bytes(&mut bytes, other.bytes.as_slice());
        self.bytes = bytes;
    }

    fn as_slice(&self) -> (r: &[u8])
        ensures
            r@ == self@,
    {
        proof {
            use_type_invariant(self);
        }
        self.bytes.as_slice()
    }

    fn copy(&self) -> (r: Self)
        ensures
            r@ == self@,
    {
        proof {
            use_type_invariant(self);
        }
        CapabilityNegotiationResponseUnknown { bytes: copy_bytes(self.bytes.as_slice()) }
    }
}

impl WireMessage for CapabilityNegotiationResponse {
    open spec fn apply_wire(message: CapabilityNegotiationResponseModel, field: nat, value: WireValue, raw: Seq<u8>, depth: nat) -> Option<CapabilityNegotiationResponseModel> {
        message.apply(field, value, raw, depth)
    }

    open spec fn keeps_unknown(field: nat, value: WireValue) -> bool {
        CapabilityNegotiationResponseModel::keeps_unknown(field, value)
    }

    open spec fn add_unknown(message: CapabilityNegotiationResponseModel, raw: Seq<u8>) -> CapabilityNegotiationResponseModel {
        CapabilityNegotiationResponseModel { unknown: message.unknown + raw, ..message }
    }

    proof fn lemma_apply_unknown(message: CapabilityNegotiationResponseModel, field: nat, value: WireValue, raw: Seq<u8>, depth: nat) {
        reveal(CapabilityNegotiationResponseModel::apply);
    }

    proof fn lemma_add_unknown(message: CapabilityNegotiationResponseModel, a: Seq<u8>, b: Seq<u8>) {
        assert(message.unknown + a + b =~= message.unknown + (a + b));
        assert(message.unknown + Seq::<u8>::empty() =~= message.unknown);
    }

    fn apply_field(
        &mut self,
        data: &[u8],
        field: u32,
        value: FieldValue,
        start: usize,
        end: usize,
        depth: u32,
    ) -> (ok: bool) {
        proof {
            reveal(CapabilityNegotiationResponseModel::apply);
        }
        if field == 1 {
            if let FieldValue::Delimited(from, to) = value {
                if depth == 0 {
                    return false;
                }
                let mut sub = match self.selected_version.take() {
                    Some(x) => x,
                    None => ProtocolVersion::new(),
                };
                if !merge_bytes(&mut sub, &data[from..to], depth - 1) {
                    return false;
                }
                self.selected_version = Some(sub);
                return true;
            }
        } else if field == 2 {
            if let FieldValue::Delimited(from, to) = value {
                match proto_string(&data[from..to]) {
                    Some(text) => {
                        let ghost before = self.supported_features@;
                        self.supported_features.push(text);
                        assert(self.supported_features@.map_values(|s: String| s@) =~= before.map_values(|s: String| s@).push(
                            text@,
                        ));
                    },
                    None => return false,
                }
                return true;
            }
        } else if field == 3 {
            if let FieldValue::Delimited(from, to) = value {
                match proto_string(&data[from..to]) {
                    Some(text) => {
                        let ghost before = self.unsupported_features@;
                        self.unsupported_features.push(text);
                        assert(self.unsupported_features@.map_values(|s: String| s@) =~= before.map_values(|s: String| s@).push(
                            text@,
                        ));
                    },
                    None => return false,
                }
                return true;
            }
        } else if field == 4 {
            if let FieldValue::Varint(v) = value {
                self.compatibility = v != 0;
                return true;
            }
        }
        proof {
            lemma_decode_field_deeper(data@.subrange(start as int, end as int), depth as nat, group_depth_limit());
        }
        self.unknown.push_field(&data[start..end], Ghost(field as nat), Ghost(value.wire(data@)));
        true
    }
}

/// The content of every `CapabilityNegotiationResponse` is well formed.
pub proof fn lemma_capability_negotiation_response_well_formed(m: CapabilityNegotiationResponse)
    ensures
        m@.well_formed(),
{
    lemma_unknown_run_fields::<CapabilityNegotiationResponse>(m.unknown.bytes@, CapabilityNegotiationResponseModel::keeps(), group_depth_limit());
    if let Some(x) = m.selected_version {
        lemma_protocol_version_well_formed(x);
    }
}

impl CapabilityNegotiationResponse {
    /// A message with every field at its default.
    pub fn new() -> (r: Self)
        ensures
            r@ == CapabilityNegotiationResponseModel::empty(),
    {
        let r = CapabilityNegotiationResponse {
            selected_version: None,
            supported_features: Vec::new(),
            unsupported_features: Vec::new(),
            compatibility: false,
            unknown: CapabilityNegotiationResponseUnknown::new(),
        };
        assert(r@.supported_features =~= Seq::empty());
        assert(r@.unsupported_features =~= Seq::empty());
        r
    }

    /// Reads a message from its wire form.
    pub fn parse(data: &[u8]) -> (r: Result<Self, protobuf::ParseError>)
        ensures
            match merge_message::<CapabilityNegotiationResponse>(CapabilityNegotiationResponseModel::empty(), data@, group_depth_limit()) {
                Some(m) => r matches Ok(msg) && msg@ == m && m.well_formed(),
                None => r is Err,
            },
    {
        proof {
            if merge_message::<CapabilityNegotiationResponse>(CapabilityNegotiationResponseModel::empty(), data@, group_depth_limit()) is Some {
                lemma_capability_negotiation_response_parse_well_formed(CapabilityNegotiationResponseModel::empty(), data@, group_depth_limit());
            }
        }
        let mut msg = Self::new();
        if merge_bytes(&mut msg, data, 100) {
            Ok(msg)
        } else {
            Err(parse_error())
        }
    }

    /// Same as `parse`: the message has no required fields.
    pub fn parse_dont_enforce_required(data: &[u8]) -> (r: Result<Self, protobuf::ParseError>)
        ensures
            match merge_message::<CapabilityNegotiationResponse>(CapabilityNegotiationResponseModel::empty(), data@, group_depth_limit()) {
                Some(m) => r matches Ok(msg) && msg@ == m && m.well_formed(),
                None => r is Err,
            },
    {
        Self::parse(data)
    }

    /// Resets every field to its default.
    pub fn clear(&mut self)
        ensures
            final(self)@ == CapabilityNegotiationResponseModel::empty(),
    {
        *self = CapabilityNegotiationResponse::new();
    }

    /// Replaces the message by the one `data` encodes; on an error what the
    /// message then holds is unspecified.
    pub fn clear_and_parse(&mut self, data: &[u8]) -> (r: Result<(), protobuf::ParseError>)
        ensures
            match merge_message::<CapabilityNegotiationResponse>(CapabilityNegotiationResponseModel::empty(), data@, group_depth_limit()) {
                Some(m) => r is Ok && final(self)@ == m && m.well_formed(),
                None => r is Err,
            },
    {
        proof {
            if merge_message::<CapabilityNegotiationResponse>(CapabilityNegotiationResponseModel::empty(), data@, group_depth_limit()) is Some {
                lemma_capability_negotiation_response_parse_well_formed(CapabilityNegotiationResponseModel::empty(), data@, group_depth_limit());
            }
        }
        *self = CapabilityNegotiationResponse::new();
        if merge_bytes(self, data, 100) {
            Ok(())
        } else {
            Err(parse_error())
        }
    }

    /// Same as `clear_and_parse`: the message has no required fields; on an error what the
    /// message then holds is unspecified.
    pub fn clear_and_parse_dont_enforce_required(&mut self, data: &[u8]) -> (r: Result<(), protobuf::ParseError>)
        ensures
            match merge_message::<CapabilityNegotiationResponse>(CapabilityNegotiationResponseModel::empty(), data@, group_depth_limit()) {
                Some(m) => r is Ok && final(self)@ == m && m.well_formed(),
                None => r is Err,
            },
    {
        self.clear_and_parse(data)
    }

    /// Makes this message a copy of `src`.
    pub fn copy_from(&mut self, src: CapabilityNegotiationResponseView<'_>)
        ensures
            final(self)@ == src@,
    {
        *self = src.to_owned();
    }

    /// Moves the content of `src` here, leaving `src` empty.
    pub fn take_from(&mut self, src: &mut CapabilityNegotiationResponse)
        ensures
            final(self)@ == old(src)@,
            final(src)@ == CapabilityNegotiationResponseModel::empty(),
    {
        let mut taken = CapabilityNegotiationResponse::new();
        std::mem::swap(&mut taken, src);
        *self = taken;
    }

    /// Merges `src` into this message (see `merge` on the model).
    pub fn merge_from(&mut self, src: CapabilityNegotiationResponseView<'_>)
        ensures
            final(self)@ == old(self)@.merge(src@),
    {
        match src.msg {
            Some(other) => self.merge_fields_from(other),
            None => {
                proof {
                    lemma_capability_negotiation_response_merge_empty(self@);
                }
            },
        }
    }

    fn merge_fields_from(&mut self, other: &CapabilityNegotiationResponse)
        ensures
            final(self)@ == old(self)@.merge(other@),
    {
        proof {
            reveal(CapabilityNegotiationResponseModel::merge);
        }
        let ghost start = self@;
        if let Some(x) = &other.selected_version {
            let mut sub = match self.selected_version.take() {
                Some(y) => y,
                None => ProtocolVersion::new(),
            };
            sub.merge_fields_from(x);
            self.selected_version = Some(sub);
        }
        let mut extra = clone_strings(other.supported_features.as_slice());
        let ghost before = self.supported_features@;
        self.supported_features.append(&mut extra);
        assert(self.supported_features@.map_values(|s: String| s@) =~= before.map_values(|s: String| s@) + other.supported_features@.map_values(|s: String| s@));
        let mut extra = clone_strings(other.unsupported_features.as_slice());
        let ghost before = self.unsupported_features@;
        self.unsupported_features.append(&mut extra);
        assert(self.unsupported_features@.map_values(|s: String| s@) =~= before.map_values(|s: String| s@) + other.unsupported_features@.map_values(|s: String| s@));
        if other.compatibility {
            self.compatibility = true;
        }
        self.unknown.append(&other.unknown);
        assert(self@ =~= start.merge(other@));
    }

    /// Appends the wire form to `buf`.
    pub fn write_to(&self, buf: &mut Vec<u8>)
        ensures
            final(buf)@ == old(buf)@ + self@.encode(),
    {
        let ghost start = buf@;
        let ghost c1 = optional_message(1, match self@.selected_version {
            Some(x) => Some(x.encode()),
            None => None,
        });
        let ghost c2 = repeated_strings(2, self@.supported_features);
        let ghost c3 = repeated_strings(3, self@.unsupported_features);
        let ghost c4 = varint_field(4, if self@.compatibility { 1 } else { 0 });
        let ghost c5 = self@.unknown;
        let ghost before0 = buf@;
        if let Some(x) = &self.selected_version {
            let mut payload = Vec::new();
            x.write_to(&mut payload);
            assert(payload@ =~= x@.encode());
            write_delimited(buf, 1, payload.as_slice());
        }
        assert(buf@ =~= before0 + optional_message(
            1,
            match self@.selected_version {
                Some(x) => Some(x.encode()),
                None => None,
            },
        ));
        let ghost mut written = c1;
        assert(buf@ == start + written);
        write_repeated_strings(buf, 2, self.supported_features.as_slice());
        proof {
            lemma_concat_associative(start, written, c2);
            written = written + c2;
        }
        assert(buf@ == start + written);
        write_repeated_strings(buf, 3, self.unsupported_features.as_slice());
        proof {
            lemma_concat_associative(start, written, c3);
            written = written + c3;
        }
        assert(buf@ == start + written);
        write_varint_field(buf, 4, if self.compatibility { 1 } else { 0 });
        proof {
            lemma_concat_associative(start, written, c4);
            written = written + c4;
        }
        assert(buf@ == start + written);
        append_bytes(buf, self.unknown.as_slice());
        proof {
            lemma_concat_associative(start, written, c5);
            written = written + c5;
        }
        assert(buf@ == start + written);
        assert(self@.encode() == written) by {
            assert(written == c1 + c2 + c3 + c4 + c5);
            reveal(CapabilityNegotiationResponseModel::encode);
        }
    }

    /// The wire form, refused when it is longer than `i32::MAX` bytes. The
    /// message is well formed, and when the unknown fields of its
    /// sub-messages fit in the nesting left to them the wire form reads back
    /// as the message.
    pub fn serialize(&self) -> (r: Result<Vec<u8>, protobuf::SerializeError>)
        ensures
            match r {
                Ok(bytes) => bytes@ == self@.encode() && self@.encode().len() <= 0x7fff_ffff,
                Err(_) => self@.encode().len() > 0x7fff_ffff,
            },
            self@.well_formed(),
            self@.encode().len() <= size_limit() && self@.well_formed_at(group_depth_limit())
                ==> merge_message::<CapabilityNegotiationResponse>(CapabilityNegotiationResponseModel::empty(), self@.encode(), group_depth_limit()) == Some(self@),
    {
        proof {
            lemma_capability_negotiation_response_well_formed(*self);
            if self@.encode().len() <= size_limit() && self@.well_formed_at(group_depth_limit()) {
                lemma_capability_negotiation_response_roundtrip(self@, group_depth_limit());
            }
        }
        let mut buf = Vec::new();
        self.write_to(&mut buf);
        assert(buf@ =~= self@.encode());
        if buf.len() > 0x7fff_ffff {
            return Err(serialize_error());
        }
        Ok(buf)
    }

    pub fn as_view(&self) -> (r: CapabilityNegotiationResponseView<'_>)
        ensures
            r@ == self@,
    {
        CapabilityNegotiationResponseView::new(self)
    }

    pub fn as_mut(&mut self) -> (r: CapabilityNegotiationResponseMut<'_>)
        ensures
            r@ == old(self)@,
            *final(self) == *final(r.msg),
    {
        CapabilityNegotiationResponseMut::new(self)
    }

    pub fn has_selected_version(&self) -> (r: bool)
        ensures
            r == (self@.selected_version is Some),
    {
        self.selected_version.is_some()
    }

    pub fn clear_selected_version(&mut self)
        ensures
            final(self)@ == (CapabilityNegotiationResponseModel { selected_version: None, ..old(self)@ }),
    {
        self.selected_version = None;
    }

    pub fn selected_version_opt(&self) -> (r: Option<ProtocolVersionView<'_>>)
        ensures
            match self@.selected_version {
                Some(x) => r matches Some(v) && v@ == x,
                None => r is None,
            },
    {
        match &self.selected_version {
            Some(x) => Some(ProtocolVersionView::new(x)),
            None => None,
        }
    }

    /// The sub-message, or the empty one when `selected_version` is not set.
    pub fn selected_version(&self) -> (r: ProtocolVersionView<'_>)
        ensures
            r@ == match self@.selected_version {
                Some(x) => x,
                None => ProtocolVersionModel::empty(),
            },
    {
        match &self.selected_version {
            Some(x) => ProtocolVersionView::new(x),
            None => ProtocolVersionView::default(),
        }
    }

    /// Write access to the sub-message; sets `selected_version` to the empty one first
    /// when it is not set.
    pub fn selected_version_mut(&mut self) -> (r: ProtocolVersionMut<'_>)
        ensures
            r@ == match old(self)@.selected_version {
                Some(x) => x,
                None => ProtocolVersionModel::empty(),
            },
            final(self)@ == (CapabilityNegotiationResponseModel { selected_version: Some((*final(r.msg))@), ..old(self)@ }),
    {
        if self.selected_version.is_none() {
            self.selected_version = Some(ProtocolVersion::new());
        }
        ProtocolVersionMut::new(self.selected_version.as_mut().unwrap())
    }

    pub fn set_selected_version(&mut self, val: ProtocolVersion)
        ensures
            final(self)@ == (CapabilityNegotiationResponseModel { selected_version: Some(val@), ..old(self)@ }),
    {
        self.selected_version = Some(val);
    }

    pub fn supported_features(&self) -> (r: &[String])
        ensures
            r@.map_values(|s: String| s@) == self@.supported_features,
    {
        self.supported_features.as_slice()
    }

    pub fn supported_features_mut(&mut self) -> (r: &mut Vec<String>)
        ensures
            (*r)@.map_values(|s: String| s@) == old(self)@.supported_features,
            final(self)@ == (CapabilityNegotiationResponseModel { supported_features: (*final(r))@.map_values(|s: String| s@), ..old(self)@ }),
    {
        &mut self.supported_features
    }

    pub fn set_supported_features(&mut self, src: Vec<String>)
        ensures
            final(self)@ == (CapabilityNegotiationResponseModel { supported_features: src@.map_values(|s: String| s@), ..old(self)@ }),
    {
        self.supported_features = src;
    }

    pub fn unsupported_features(&self) -> (r: &[String])
        ensures
            r@.map_values(|s: String| s@) == self@.unsupported_features,
    {
        self.unsupported_features.as_slice()
    }

    pub fn unsupported_features_mut(&mut self) -> (r: &mut Vec<String>)
        ensures
            (*r)@.map_values(|s: String| s@) == old(self)@.unsupported_features,
            final(self)@ == (CapabilityNegotiationResponseModel { unsupported_features: (*final(r))@.map_values(|s: String| s@), ..old(self)@ }),
    {
        &mut self.unsupported_features
    }

    pub fn set_unsupported_features(&mut self, src: Vec<String>)
        ensures
            final(self)@ == (CapabilityNegotiationResponseModel { unsupported_features: src@.map_values(|s: String| s@), ..old(self)@ }),
    {
        self.unsupported_features = src;
    }

    pub fn compatibility(&self) -> (r: bool)
        ensures
            r == self@.compatibility,
    {
        self.compatibility
    }

    pub fn set_compatibility(&mut self, val: bool)
        ensures
            final(self)@ == (CapabilityNegotiationResponseModel { compatibility: val, ..old(self)@ }),
    {
        self.compatibility = val;
    }
}

impl Clone for CapabilityNegotiationResponse {
    fn clone(&self) -> (r: Self)
        ensures
            r@ == self@,
    {
        let r = CapabilityNegotiationResponse {
            selected_version: match &self.selected_version {
                Some(x) => Some(x.clone()),
                None => None,
            },
            supported_features: clone_strings(self.supported_features.as_slice()),
            unsupported_features: clone_strings(self.unsupported_features.as_slice()),
            compatibility: self.compatibility,
            unknown: self.unknown.copy(),
        };
        assert(r@.selected_version == self@.selected_version);
        r
    }
}

impl Default for CapabilityNegotiationResponse {
    fn default() -> (r: Self)
        ensures
            r@ == CapabilityNegotiationResponseModel::empty(),
    {
        Self::new()
    }
}

/// Read access to a `CapabilityNegotiationResponse`; the default view reads as the empty message.
#[derive(Clone, Copy)]
pub struct CapabilityNegotiationResponseView<'msg> {
    msg: Option<&'msg CapabilityNegotiationResponse>,
}

impl<'msg> View for CapabilityNegotiationResponseView<'msg> {
    type V = CapabilityNegotiationResponseModel;

    closed spec fn view(&self) -> CapabilityNegotiationResponseModel {
        match self.msg {
            Some(m) => m@,
            None => CapabilityNegotiationResponseModel::empty(),
        }
    }
}

impl<'msg> CapabilityNegotiationResponseView<'msg> {
    pub fn new(msg: &'msg CapabilityNegotiationResponse) -> (r: Self)
        ensures
            r@ == msg@,
    {
        CapabilityNegotiationResponseView { msg: Some(msg) }
    }

    /// An owned copy of the message.
    pub fn to_owned(&self) -> (r: CapabilityNegotiationResponse)
        ensures
            r@ == self@,
    {
        match self.msg {
            Some(m) => m.clone(),
            None => CapabilityNegotiationResponse::new(),
        }
    }

    /// The wire form, refused when it is longer than `i32::MAX` bytes. The
    /// message is well formed, and when the unknown fields of its
    /// sub-messages fit in the nesting left to them the wire form reads back
    /// as the message.
    pub fn serialize(&self) -> (r: Result<Vec<u8>, protobuf::SerializeError>)
        ensures
            match r {
                Ok(bytes) => bytes@ == self@.encode() && self@.encode().len() <= 0x7fff_ffff,
                Err(_) => self@.encode().len() > 0x7fff_ffff,
            },
            self@.well_formed(),
            self@.encode().len() <= size_limit() && self@.well_formed_at(group_depth_limit())
                ==> merge_message::<CapabilityNegotiationResponse>(CapabilityNegotiationResponseModel::empty(), self@.encode(), group_depth_limit()) == Some(self@),
    {
        match self.msg {
            Some(m) => m.serialize(),
            None => CapabilityNegotiationResponse::new().serialize(),
        }
    }

    pub fn has_selected_version(self) -> (r: bool)
        ensures
            r == (self@.selected_version is Some),
    {
        match self.msg {
            Some(m) => m.selected_version.is_some(),
            None => false,
        }
    }

    pub fn selected_version_opt(self) -> (r: Option<ProtocolVersionView<'msg>>)
        ensures
            match self@.selected_version {
                Some(x) => r matches Some(v) && v@ == x,
                None => r is None,
            },
    {
        match self.msg {
            Some(m) => match &m.selected_version {
                Some(x) => Some(ProtocolVersionView::new(x)),
                None => None,
            },
            None => None,
        }
    }

    /// The sub-message, or the empty one when `selected_version` is not set.
    pub fn selected_version(self) -> (r: ProtocolVersionView<'msg>)
        ensures
            r@ == match self@.selected_version {
                Some(x) => x,
                None => ProtocolVersionModel::empty(),
            },
    {
        match self.msg {
            Some(m) => match &m.selected_version {
                Some(x) => ProtocolVersionView::new(x),
                None => ProtocolVersionView::default(),
            },
            None => ProtocolVersionView::default(),
        }
    }

    pub fn supported_features(self) -> (r: &'msg [String])
        ensures
            r@.map_values(|s: String| s@) == self@.supported_features,
    {
        match self.msg {
            Some(m) => m.supported_features.as_slice(),
            None => {
                assert(Seq::<String>::empty().map_values(|s: String| s@) =~= Seq::empty());
                &[]
            },
        }
    }

    pub fn unsupported_features(self) -> (r: &'msg [String])
        ensures
            r@.map_values(|s: String| s@) == self@.unsupported_features,
    {
        match self.msg {
            Some(m) => m.unsupported_features.as_slice(),
            None => {
                assert(Seq::<String>::empty().map_values(|s: String| s@) =~= Seq::empty());
                &[]
            },
        }
    }

    pub fn compatibility(self) -> (r: bool)
        ensures
            r == self@.compatibility,
    {
        match self.msg {
            Some(m) => m.compatibility,
            None => false,
        }
    }
}

impl<'msg> Default for CapabilityNegotiationResponseView<'msg> {
    fn default() -> (r: Self)
        ensures
            r@ == CapabilityNegotiationResponseModel::empty(),
    {
        CapabilityNegotiationResponseView { msg: None }
    }
}

/// Write access to a `CapabilityNegotiationResponse` held elsewhere.
pub struct CapabilityNegotiationResponseMut<'msg> {
    /// The message written through this handle.
    pub msg: &'msg mut CapabilityNegotiationResponse,
}

impl<'msg> View for CapabilityNegotiationResponseMut<'msg> {
    type V = CapabilityNegotiationResponseModel;

    open spec fn view(&self) -> CapabilityNegotiationResponseModel {
        (*self.msg)@
    }
}

impl<'msg> CapabilityNegotiationResponseMut<'msg> {
    pub fn new(msg: &'msg mut CapabilityNegotiationResponse) -> (r: Self)
        ensures
            r@ == old(msg)@,
            *final(msg) == *final(r.msg),
    {
        CapabilityNegotiationResponseMut { msg }
    }

    /// An owned copy of the message.
    pub fn to_owned(&self) -> (r: CapabilityNegotiationResponse)
        ensures
            r@ == self@,
    {
        self.msg.clone()
    }

    pub fn as_view(&self) -> (r: CapabilityNegotiationResponseView<'_>)
        ensures
            r@ == self@,
    {
        CapabilityNegotiationResponseView::new(self.msg)
    }

    /// The wire form, refused when it is longer than `i32::MAX` bytes. The
    /// message is well formed, and when the unknown fields of its
    /// sub-messages fit in the nesting left to them the wire form reads back
    /// as the message.
    pub fn serialize(&self) -> (r: Result<Vec<u8>, protobuf::SerializeError>)
        ensures
            match r {
                Ok(bytes) => bytes@ == self@.encode() && self@.encode().len() <= 0x7fff_ffff,
                Err(_) => self@.encode().len() > 0x7fff_ffff,
            },
            self@.well_formed(),
            self@.encode().len() <= size_limit() && self@.well_formed_at(group_depth_limit())
                ==> merge_message::<CapabilityNegotiationResponse>(CapabilityNegotiationResponseModel::empty(), self@.encode(), group_depth_limit()) == Some(self@),
    {
        self.msg.serialize()
    }

    /// Resets every field to its default.
    pub fn clear(&mut self)
        ensures
            final(self)@ == CapabilityNegotiationResponseModel::empty(),
            *final(final(self).msg) == *final(old(self).msg),
    {
        self.msg.clear();
    }

    /// Replaces the message by the one `data` encodes.
    pub fn clear_and_parse(&mut self, data: &[u8]) -> (r: Result<(), protobuf::ParseError>)
        ensures
            match merge_message::<CapabilityNegotiationResponse>(CapabilityNegotiationResponseModel::empty(), data@, group_depth_limit()) {
                Some(m) => r is Ok && final(self)@ == m && m.well_formed(),
                None => r is Err,
            },
            *final(final(self).msg) == *final(old(self).msg),
    {
        self.msg.clear_and_parse(data)
    }

    /// Replaces the message by the one `data` encodes.
    pub fn clear_and_parse_dont_enforce_required(&mut self, data: &[u8]) -> (r: Result<(), protobuf::ParseError>)
        ensures
            match merge_message::<CapabilityNegotiationResponse>(CapabilityNegotiationResponseModel::empty(), data@, group_depth_limit()) {
                Some(m) => r is Ok && final(self)@ == m && m.well_formed(),
                None => r is Err,
            },
            *final(final(self).msg) == *final(old(self).msg),
    {
        self.msg.clear_and_parse_dont_enforce_required(data)
    }

    /// Makes the message a copy of `src`.
    pub fn copy_from(&mut self, src: CapabilityNegotiationResponseView<'_>)
        ensures
            final(self)@ == src@,
            *final(final(self).msg) == *final(old(self).msg),
    {
        self.msg.copy_from(src);
    }

    /// Merges `src` into the message.
    pub fn merge_from(&mut self, src: CapabilityNegotiationResponseView<'_>)
        ensures
            final(self)@ == old(self)@.merge(src@),
            *final(final(self).msg) == *final(old(self).msg),
    {
        self.msg.merge_from(src);
    }

    pub fn has_selected_version(&self) -> (r: bool)
        ensures
            r == (self@.selected_version is Some),
    {
        self.msg.has_selected_version()
    }

    pub fn clear_selected_version(&mut self)
        ensures
            final(self)@ == (CapabilityNegotiationResponseModel { selected_version: None, ..old(self)@ }),
            *final(final(self).msg) == *final(old(self).msg),
    {
        self.msg.clear_selected_version();
    }

    pub fn selected_version_opt(&self) -> (r: Option<ProtocolVersionView<'_>>)
        ensures
            match self@.selected_version {
                Some(x) => r matches Some(v) && v@ == x,
                None => r is None,
            },
    {
        self.msg.selected_version_opt()
    }

    /// The sub-message, or the empty one when `selected_version` is not set.
    pub fn selected_version(&self) -> (r: ProtocolVersionView<'_>)
        ensures
            r@ == match self@.selected_version {
                Some(x) => x,
                None => ProtocolVersionModel::empty(),
            },
    {
        self.msg.selected_version()
    }

    /// Write access to the sub-message; sets `selected_version` to the empty one first
    /// when it is not set.
    pub fn selected_version_mut(&mut self) -> (r: ProtocolVersionMut<'_>)
        ensures
            r@ == match old(self)@.selected_version {
                Some(x) => x,
                None => ProtocolVersionModel::empty(),
            },
            final(self)@ == (CapabilityNegotiationResponseModel { selected_version: Some((*final(r.msg))@), ..old(self)@ }),
            *final(final(self).msg) == *final(old(self).msg),
    {
        self.msg.selected_version_mut()
    }

    pub fn set_selected_version(&mut self, val: ProtocolVersion)
        ensures
            final(self)@ == (CapabilityNegotiationResponseModel { selected_version: Some(val@), ..old(self)@ }),
            *final(final(self).msg) == *final(old(self).msg),
    {
        self.msg.set_selected_version(val);
    }

    pub fn supported_features(&self) -> (r: &[String])
        ensures
            r@.map_values(|s: String| s@) == self@.supported_features,
    {
        self.msg.supported_features()
    }

    pub fn supported_features_mut(&mut self) -> (r: &mut Vec<String>)
        ensures
            (*r)@.map_values(|s: String| s@) == old(self)@.supported_features,
            final(self)@ == (CapabilityNegotiationResponseModel { supported_features: (*final(r))@.map_values(|s: String| s@), ..old(self)@ }),
            *final(final(self).msg) == *final(old(self).msg),
    {
        self.msg.supported_features_mut()
    }

    pub fn set_supported_features(&mut self, src: Vec<String>)
        ensures
            final(self)@ == (CapabilityNegotiationResponseModel { supported_features: src@.map_values(|s: String| s@), ..old(self)@ }),
            *final(final(self).msg) == *final(old(self).msg),
    {
        self.msg.set_supported_features(src);
    }

    pub fn unsupported_features(&self) -> (r: &[String])
        ensures
            r@.map_values(|s: String| s@) == self@.unsupported_features,
    {
        self.msg.unsupported_features()
    }

    pub fn unsupported_features_mut(&mut self) -> (r: &mut Vec<String>)
        ensures
            (*r)@.map_values(|s: String| s@) == old(self)@.unsupported_features,
            final(self)@ == (CapabilityNegotiationResponseModel { unsupported_features: (*final(r))@.map_values(|s: String| s@), ..old(self)@ }),
            *final(final(self).msg) == *final(old(self).msg),
    {
        self.msg.unsupported_features_mut()
    }

    pub fn set_unsupported_features(&mut self, src: Vec<String>)
        ensures
            final(self)@ == (CapabilityNegotiationResponseModel { unsupported_features: src@.map_values(|s: String| s@), ..old(self)@ }),
            *final(final(self).msg) == *final(old(self).msg),
    {
        self.msg.set_unsupported_features(src);
    }

    pub fn compatibility(&self) -> (r: bool)
        ensures
            r == self@.compatibility,
    {
        self.msg.compatibility()
    }

    pub fn set_compatibility(&mut self, val: bool)
        ensures
            final(self)@ == (CapabilityNegotiationResponseModel { compatibility: val, ..old(self)@ }),
            *final(final(self).msg) == *final(old(self).msg),
    {
        self.msg.set_compatibility(val);
    }
}

} // verus!
