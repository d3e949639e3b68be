//! Finding devices on the local network (package `nearclip.discovery`).
use vstd::prelude::*;
use vstd::seq_lib::lemma_concat_associative;
use vstd::std_specs::convert::FromSpecImpl;
use vstd::utf8::{decode_utf8, encode_utf8, encode_utf8_decode_utf8, encode_utf8_valid_utf8, valid_utf8};
use crate::proto::{parse_error, proto_string, serialize_error};
use crate::text::{decimal, from_text, qualified_text};
use crate::wire::{
    append_bytes, bytes_field, copy_bytes, copy_items, decode_field, delimited, field_key, from_i32,
    group_depth_limit, i32_wire, lemma_decode_field_deeper, lemma_i32_wire_roundtrip,
    lemma_merge_bytes_field, lemma_merge_concat, lemma_merge_delimited, lemma_merge_nothing,
    lemma_merge_preserves, lemma_merge_unknown, lemma_merge_varint, lemma_merge_varint_field,
    lemma_unknown_field, lemma_unknown_fields_concat, lemma_unknown_run_concat,
    lemma_unknown_run_empty, lemma_unknown_run_field, lemma_unknown_run_fields, lemma_unpack_packed,
    merge_bytes, merge_message, optional_message, packed, packed_field, read_packed,
    repeated_delimited, size_limit, to_i32, to_u32, unknown_fields, unknown_run, unpack, unpacked,
    varint, varint_field, wire_i32, wire_u32, write_bytes_field, write_delimited,
    write_packed_field, write_varint_field, FieldValue, WireMessage, WireValue,
};

verus! {

/// What a device can do. An open enumeration: a value this version does not
/// name is kept as it is.
#[derive(Clone, Copy, PartialEq, Eq, Structural, Hash, PartialOrd, Ord, Debug)]
pub struct DeviceCapability(pub i32);

impl View for DeviceCapability {
    type V = i32;

    open spec fn view(&self) -> i32 {
        self.0
    }
}

#[allow(non_snake_case)]
impl DeviceCapability {
    pub fn CapabilityUnknown() -> (r: DeviceCapability)
        ensures
            r@ == 0,
            Self::known_name(r@) == Some("CapabilityUnknown"@),
    {
        DeviceCapability(0)
    }

    pub fn CapabilityClipboardRead() -> (r: DeviceCapability)
        ensures
            r@ == 1,
            Self::known_name(r@) == Some("CapabilityClipboardRead"@),
    {
        DeviceCapability(1)
    }

    pub fn CapabilityClipboardWrite() -> (r: DeviceCapability)
        ensures
            r@ == 2,
            Self::known_name(r@) == Some("CapabilityClipboardWrite"@),
    {
        DeviceCapability(2)
    }

    pub fn CapabilityFileTransfer() -> (r: DeviceCapability)
        ensures
            r@ == 3,
            Self::known_name(r@) == Some("CapabilityFileTransfer"@),
    {
        DeviceCapability(3)
    }

    pub fn CapabilityEncryption() -> (r: DeviceCapability)
        ensures
            r@ == 4,
            Self::known_name(r@) == Some("CapabilityEncryption"@),
    {
        DeviceCapability(4)
    }

    /// The name of each value this version knows.
    pub open spec fn known_name(value: i32) -> Option<Seq<char>> {
        if value == 0 {
            Some("CapabilityUnknown"@)
        } else if value == 1 {
            Some("CapabilityClipboardRead"@)
        } else if value == 2 {
            Some("CapabilityClipboardWrite"@)
        } else if value == 3 {
            Some("CapabilityFileTransfer"@)
        } else if value == 4 {
            Some("CapabilityEncryption"@)
        } else {
            None
        }
    }

    /// Whether this version names `value`.
    pub fn is_known(value: i32) -> (r: bool)
        ensures
            r == (Self::known_name(value) is Some),
    {
        0 <= value && value <= 4
    }

    /// The name of the value, when this version knows it.
    pub fn constant_name(&self) -> (r: Option<&'static str>)
        ensures
            match Self::known_name(self@) {
                Some(n) => r matches Some(s) && s@ == n,
                None => r is None,
            },
    {
        match self.0 {
            0 => Some("CapabilityUnknown"),
            1 => Some("CapabilityClipboardRead"),
            2 => Some("CapabilityClipboardWrite"),
            3 => Some("CapabilityFileTransfer"),
            4 => Some("CapabilityEncryption"),
            _ => None,
        }
    }

    /// How the value is shown: `DeviceCapability::` and its name when this version
    /// knows it, else `DeviceCapability::from(` with its number and `)`.
    pub fn debug_text(&self) -> (r: String)
        ensures
            r@ == match Self::known_name(self@) {
                Some(n) => "DeviceCapability"@ + "::"@ + n,
                None => "DeviceCapability"@ + "::from("@ + decimal(self@ as int) + ")"@,
            },
    {
        match self.constant_name() {
            Some(n) => qualified_text("DeviceCapability", n),
            None => from_text("DeviceCapability", self.0),
        }
    }

    /// The numbers of a list of values.
    pub fn values_of(list: &[DeviceCapability]) -> (r: Vec<i32>)
        ensures
            r@ == list@.map_values(|e: DeviceCapability| e.0),
    {
        let mut r: Vec<i32> = Vec::new();
        let mut i: usize = 0;
        while i < list.len()
            invariant
                i <= list@.len(),
                r@ == list@.take(i as int).map_values(|e: DeviceCapability| e.0),
            decreases list@.len() - i,
        {
            r.push(list[i].0);
            assert(list@.take(i + 1).map_values(|e: DeviceCapability| e.0) =~= list@.take(i as int).map_values(
                |e: DeviceCapability| e.0,
            ).push(list@[i as int].0));
            i = i + 1;
        }
        assert(list@.take(i as int) =~= list@);
        r
    }

    /// Appends the values with the given numbers to `list`.
    pub fn extend_from_values(list: &mut Vec<DeviceCapability>, values: &[i32])
        ensures
            final(list)@ == old(list)@ + values@.map_values(|x: i32| DeviceCapability(x)),
    {
        let mut i: usize = 0;
        while i < values.len()
            invariant
                i <= values@.len(),
                list@ == old(list)@ + values@.take(i as int).map_values(|x: i32| DeviceCapability(x)),
            decreases values@.len() - i,
        {
            list.push(DeviceCapability(values[i]));
            assert(values@.take(i + 1).map_values(|x: i32| DeviceCapability(x)) =~= values@.take(i as int).map_values(
                |x: i32| DeviceCapability(x),
            ).push(DeviceCapability(values@[i as int])));
            i = i + 1;
        }
        assert(values@.take(i as int) =~= values@);
    }
}

/// The names of `DeviceCapability`: the value of each constant is named after that
/// constant, and a value outside 0 to 4 has no name.
pub proof fn lemma_device_capability_names()
    ensures
        DeviceCapability::known_name(0) == Some("CapabilityUnknown"@),
        DeviceCapability::known_name(1) == Some("CapabilityClipboardRead"@),
        DeviceCapability::known_name(2) == Some("CapabilityClipboardWrite"@),
        DeviceCapability::known_name(3) == Some("CapabilityFileTransfer"@),
        DeviceCapability::known_name(4) == Some("CapabilityEncryption"@),
        forall|v: i32| #[trigger] DeviceCapability::known_name(v) is Some <==> 0 <= v <= 4,
{
}

impl From<i32> for DeviceCapability {
    fn from(val: i32) -> (r: DeviceCapability)
        ensures
            r@ == val,
    {
        DeviceCapability(val)
    }
}

impl FromSpecImpl<i32> for DeviceCapability {
    open spec fn obeys_from_spec() -> bool {
        true
    }

    open spec fn from_spec(v: i32) -> DeviceCapability {
        DeviceCapability(v)
    }
}

impl From<DeviceCapability> for i32 {
    fn from(val: DeviceCapability) -> (r: i32)
        ensures
            r == val@,
    {
        val.0
    }
}

impl FromSpecImpl<DeviceCapability> for i32 {
    open spec fn obeys_from_spec() -> bool {
        true
    }

    open spec fn from_spec(v: DeviceCapability) -> i32 {
        v.0
    }
}

impl Default for DeviceCapability {
    fn default() -> (r: Self)
        ensures
            r@ == 0,
    {
        DeviceCapability(0)
    }
}

/// The kind of device. An open enumeration: a value this version does not
/// name is kept as it is.
#[derive(Clone, Copy, PartialEq, Eq, Structural, Hash, PartialOrd, Ord, Debug)]
pub struct DeviceType(pub i32);

impl View for DeviceType {
    type V = i32;

    open spec fn view(&self) -> i32 {
        self.0
    }
}

#[allow(non_snake_case)]
impl DeviceType {
    pub fn Unknown() -> (r: DeviceType)
        ensures
            r@ == 0,
            Self::known_name(r@) == Some("Unknown"@),
    {
        DeviceType(0)
    }

    pub fn Android() -> (r: DeviceType)
        ensures
            r@ == 1,
            Self::known_name(r@) == Some("Android"@),
    {
        DeviceType(1)
    }

    pub fn Mac() -> (r: DeviceType)
        ensures
            r@ == 2,
            Self::known_name(r@) == Some("Mac"@),
    {
        DeviceType(2)
    }

    pub fn Windows() -> (r: DeviceType)
        ensures
            r@ == 3,
            Self::known_name(r@) == Some("Windows"@),
    {
        DeviceType(3)
    }

    pub fn Ios() -> (r: DeviceType)
        ensures
            r@ == 4,
            Self::known_name(r@) == Some("Ios"@),
    {
        DeviceType(4)
    }

    /// The name of each value this version knows.
    pub open spec fn known_name(value: i32) -> Option<Seq<char>> {
        if value == 0 {
            Some("Unknown"@)
        } else if value == 1 {
            Some("Android"@)
        } else if value == 2 {
            Some("Mac"@)
        } else if value == 3 {
            Some("Windows"@)
        } else if value == 4 {
            Some("Ios"@)
        } else {
            None
        }
    }

    /// Whether this version names `value`.
    pub fn is_known(value: i32) -> (r: bool)
        ensures
            r == (Self::known_name(value) is Some),
    {
        0 <= value && value <= 4
    }

    /// The name of the value, when this version knows it.
    pub fn constant_name(&self) -> (r: Option<&'static str>)
        ensures
            match Self::known_name(self@) {
                Some(n) => r matches Some(s) && s@ == n,
                None => r is None,
            },
    {
        match self.0 {
            0 => Some("Unknown"),
            1 => Some("Android"),
            2 => Some("Mac"),
            3 => Some("Windows"),
            4 => Some("Ios"),
            _ => None,
        }
    }

    /// How the value is shown: `DeviceType::` and its name when this version
    /// knows it, else `DeviceType::from(` with its number and `)`.
    pub fn debug_text(&self) -> (r: String)
        ensures
            r@ == match Self::known_name(self@) {
                Some(n) => "DeviceType"@ + "::"@ + n,
                None => "DeviceType"@ + "::from("@ + decimal(self@ as int) + ")"@,
            },
    {
        match self.constant_name() {
            Some(n) => qualified_text("DeviceType", n),
            None => from_text("DeviceType", self.0),
        }
    }

    /// The numbers of a list of values.
    pub fn values_of(list: &[DeviceType]) -> (r: Vec<i32>)
        ensures
            r@ == list@.map_values(|e: DeviceType| e.0),
    {
        let mut r: Vec<i32> = Vec::new();
        let mut i: usize = 0;
        while i < list.len()
            invariant
                i <= list@.len(),
                r@ == list@.take(i as int).map_values(|e: DeviceType| e.0),
            decreases list@.len() - i,
        {
            r.push(list[i].0);
            assert(list@.take(i + 1).map_values(|e: DeviceType| e.0) =~= list@.take(i as int).map_values(
                |e: DeviceType| e.0,
            ).push(list@[i as int].0));
            i = i + 1;
        }
        assert(list@.take(i as int) =~= list@);
        r
    }

    /// Appends the values with the given numbers to `list`.
    pub fn extend_from_values(list: &mut Vec<DeviceType>, values: &[i32])
        ensures
            final(list)@ == old(list)@ + values@.map_values(|x: i32| DeviceType(x)),
    {
        let mut i: usize = 0;
        while i < values.len()
            invariant
                i <= values@.len(),
                list@ == old(list)@ + values@.take(i as int).map_values(|x: i32| DeviceType(x)),
            decreases values@.len() - i,
        {
            list.push(DeviceType(values[i]));
            assert(values@.take(i + 1).map_values(|x: i32| DeviceType(x)) =~= values@.take(i as int).map_values(
                |x: i32| DeviceType(x),
            ).push(DeviceType(values@[i as int])));
            i = i + 1;
        }
        assert(values@.take(i as int) =~= values@);
    }
}

/// The names of `DeviceType`: the value of each constant is named after that
/// constant, and a value outside 0 to 4 has no name.
pub proof fn lemma_device_type_names()
    ensures
        DeviceType::known_name(0) == Some("Unknown"@),
        DeviceType::known_name(1) == Some("Android"@),
        DeviceType::known_name(2) == Some("Mac"@),
        DeviceType::known_name(3) == Some("Windows"@),
        DeviceType::known_name(4) == Some("Ios"@),
        forall|v: i32| #[trigger] DeviceType::known_name(v) is Some <==> 0 <= v <= 4,
{
}

impl From<i32> for DeviceType {
    fn from(val: i32) -> (r: DeviceType)
        ensures
            r@ == val,
    {
        DeviceType(val)
    }
}

impl FromSpecImpl<i32> for DeviceType {
    open spec fn obeys_from_spec() -> bool {
        true
    }

    open spec fn from_spec(v: i32) -> DeviceType {
        DeviceType(v)
    }
}

impl From<DeviceType> for i32 {
    fn from(val: DeviceType) -> (r: i32)
        ensures
            r == val@,
    {
        val.0
    }
}

impl FromSpecImpl<DeviceType> for i32 {
    open spec fn obeys_from_spec() -> bool {
        true
    }

    open spec fn from_spec(v: DeviceType) -> i32 {
        v.0
    }
}

impl Default for DeviceType {
    fn default() -> (r: Self)
        ensures
            r@ == 0,
    {
        DeviceType(0)
    }
}

/// The content of a `DeviceBroadcast`.
pub struct DeviceBroadcastModel {
    pub device_id: Seq<char>,
    pub device_name: Seq<char>,
    pub device_type: DeviceType,
    pub capabilities: Seq<DeviceCapability>,
    pub version: Seq<char>,
    pub timestamp: u64,
    pub public_key: Seq<u8>,
    pub metadata: Seq<(Seq<char>, Seq<char>)>,
    /// The fields read but not understood, as they came, in order.
    pub unknown: Seq<u8>,
}

impl DeviceBroadcastModel {
    /// The message with every field at its default.
    pub open spec fn empty() -> Self {
        DeviceBroadcastModel {
            device_id: Seq::empty(),
            device_name: Seq::empty(),
            device_type: DeviceType(0),
            capabilities: Seq::empty(),
            version: Seq::empty(),
            timestamp: 0,
            public_key: Seq::empty(),
            metadata: Seq::empty(),
            unknown: Seq::empty(),
        }
    }

    /// The wire form: fields in number order, defaults and absent
    /// sub-messages left out, then the unknown fields as they came.
    #[verifier::opaque]
    pub open spec fn encode(self) -> Seq<u8> {
        bytes_field(1, encode_utf8(self.device_id))
            + bytes_field(2, encode_utf8(self.device_name))
            + varint_field(3, i32_wire(self.device_type.0))
            + packed_field(4, self.capabilities.map_values(|e: DeviceCapability| e.0))
            + bytes_field(5, encode_utf8(self.version))
            + varint_field(6, self.timestamp)
            + bytes_field(7, self.public_key)
            + map_entries(8, self.metadata)
            + self.unknown
    }

    /// Whether a field is kept, as it came, among the unknown fields: its
    /// number is not one of this message's, or it comes with another wire
    /// type than its field is written with.
    pub open spec fn keeps_unknown(field: nat, value: WireValue) -> bool {
        if field == 1 {
            !(value is Delimited)
        } else if field == 2 {
            !(value is Delimited)
        } else if field == 3 {
            !(value is Varint)
        } else if field == 4 {
            !(value is Varint || value is Delimited)
        } else if field == 5 {
            !(value is Delimited)
        } else if field == 6 {
            !(value is Varint)
        } else if field == 7 {
            !(value is Delimited)
        } else if field == 8 {
            !(value is Delimited)
        } else {
            true
        }
    }

    /// `keeps_unknown` as a function.
    pub open spec fn keeps() -> spec_fn(nat, WireValue) -> bool {
        |field: nat, value: WireValue| DeviceBroadcastModel::keeps_unknown(field, value)
    }

    /// How one field of the wire form changes the message; `raw` is the
    /// field as it came. `None` when the field's content is malformed.
    #[verifier::opaque]
    pub open spec fn apply(self, field: nat, value: WireValue, raw: Seq<u8>, depth: nat) -> Option<Self> {
        if Self::keeps_unknown(field, value) {
            Some(DeviceBroadcastModel { unknown: self.unknown + raw, ..self })
        } else if field == 1 {
            match value {
                WireValue::Delimited(b) => if valid_utf8(b) {
                    Some(DeviceBroadcastModel { device_id: decode_utf8(b), ..self })
                } else {
                    None
                },
                _ => Some(self),
            }
        } else if field == 2 {
            match value {
                WireValue::Delimited(b) => if valid_utf8(b) {
                    Some(DeviceBroadcastModel { device_name: decode_utf8(b), ..self })
                } else {
                    None
                },
                _ => Some(self),
            }
        } else if field == 3 {
            match value {
                WireValue::Varint(v) => Some(DeviceBroadcastModel { device_type: DeviceType(wire_i32(v)), ..self }),
                _ => Some(self),
            }
        } else if field == 4 {
            match value {
                WireValue::Varint(v) => Some(DeviceBroadcastModel { capabilities: self.capabilities.push(DeviceCapability(wire_i32(v))), ..self }),
                WireValue::Delimited(b) => match unpack(b) {
                    Some(values) => Some(DeviceBroadcastModel { capabilities: self.capabilities + values.map_values(|x: i32| DeviceCapability(x)), ..self }),
                    None => None,
                },
                _ => Some(self),
            }
        } else if field == 5 {
            match value {
                WireValue::Delimited(b) => if valid_utf8(b) {
                    Some(DeviceBroadcastModel { version: decode_utf8(b), ..self })
                } else {
                    None
                },
                _ => Some(self),
            }
        } else if field == 6 {
            match value {
                WireValue::Varint(v) => Some(DeviceBroadcastModel { timestamp: v, ..self }),
                _ => Some(self),
            }
        } else if field == 7 {
            match value {
                WireValue::Delimited(b) => Some(DeviceBroadcastModel { public_key: b, ..self }),
                _ => Some(self),
            }
        } else if field == 8 {
            match value {
                WireValue::Delimited(b) => if depth == 0 {
                    None
                } else {
                    match merge_message::<MetadataEntry>(MetadataEntryModel::empty(), b, (depth - 1) as nat) {
                        Some(e) => Some(DeviceBroadcastModel { metadata: map_insert(self.metadata, e.key, e.value), ..self }),
                        None => None,
                    }
                },
                _ => Some(self),
            }
        } else {
            Some(self)
        }
    }

    /// `other` merged into this message, as protobuf merges: a scalar, string
    /// or bytes field set in `other` replaces the one here, repeated fields
    /// are appended, sub-messages are merged, map entries inserted and
    /// unknown fields appended.
    #[verifier::opaque]
    pub open spec fn merge(self, other: Self) -> Self {
        DeviceBroadcastModel {
            device_id: if other.device_id.len() > 0 { other.device_id } else { self.device_id },
            device_name: if other.device_name.len() > 0 { other.device_name } else { self.device_name },
            device_type: if other.device_type.0 != 0 { other.device_type } else { self.device_type },
            capabilities: self.capabilities + other.capabilities,
            version: if other.version.len() > 0 { other.version } else { self.version },
            timestamp: if other.timestamp != 0 { other.timestamp } else { self.timestamp },
            public_key: if other.public_key.len() > 0 { other.public_key } else { self.public_key },
            metadata: map_insert_all(self.metadata, other.metadata),
            unknown: self.unknown + other.unknown,
        }
    }

    /// What writing the message out and reading it back relies on: the
    /// unknown fields are whole fields this message does not read, and
    /// the same holds of every sub-message.
    pub open spec fn well_formed(self) -> bool {
        &&& unknown_fields::<DeviceBroadcast>(self.unknown, group_depth_limit())
        &&& keys_unique(self.metadata)
    }

    /// What reading the wire form back with `depth` levels of nesting left
    /// relies on: the message is well formed, its unknown fields read as
    /// whole fields with `depth` levels, and each sub-message reads back
    /// with one level less.
    pub open spec fn well_formed_at(self, depth: nat) -> bool {
        &&& self.well_formed()
        &&& unknown_fields::<DeviceBroadcast>(self.unknown, depth)
        &&& self.metadata.len() > 0 ==> depth >= 1
    }
}

/// Reading the `device_id` field as `b` writes it merges it into `m`.
proof fn lemma_device_broadcast_read_device_id(m: DeviceBroadcastModel, b: DeviceBroadcastModel, rest: Seq<u8>, depth: nat)
    requires
        bytes_field(1, encode_utf8(b.device_id)).len() <= size_limit(),
    ensures
        merge_message::<DeviceBroadcast>(m, bytes_field(1, encode_utf8(b.device_id)) + rest, depth) == merge_message::<DeviceBroadcast>(
            DeviceBroadcastModel { device_id: if b.device_id.len() > 0 { b.device_id } else { m.device_id }, ..m },
            rest,
            depth,
        ),
{
    let next = DeviceBroadcastModel { device_id: if b.device_id.len() > 0 { b.device_id } else { m.device_id }, ..m };
    reveal(DeviceBroadcastModel::apply);
    encode_utf8_decode_utf8(b.device_id);
    encode_utf8_valid_utf8(b.device_id);
    lemma_merge_bytes_field::<DeviceBroadcast>(m, 1, encode_utf8(b.device_id), rest, next, depth);
}

/// Reading the `device_name` field as `b` writes it merges it into `m`.
proof fn lemma_device_broadcast_read_device_name(m: DeviceBroadcastModel, b: DeviceBroadcastModel, rest: Seq<u8>, depth: nat)
    requires
        bytes_field(2, encode_utf8(b.device_name)).len() <= size_limit(),
    ensures
        merge_message::<DeviceBroadcast>(m, bytes_field(2, encode_utf8(b.device_name)) + rest, depth) == merge_message::<DeviceBroadcast>(
            DeviceBroadcastModel { device_name: if b.device_name.len() > 0 { b.device_name } else { m.device_name }, ..m },
            rest,
            depth,
        ),
{
    let next = DeviceBroadcastModel { device_name: if b.device_name.len() > 0 { b.device_name } else { m.device_name }, ..m };
    reveal(DeviceBroadcastModel::apply);
    encode_utf8_decode_utf8(b.device_name);
    encode_utf8_valid_utf8(b.device_name);
    lemma_merge_bytes_field::<DeviceBroadcast>(m, 2, encode_utf8(b.device_name), rest, next, depth);
}

/// Reading the `device_type` field as `b` writes it merges it into `m`.
proof fn lemma_device_broadcast_read_device_type(m: DeviceBroadcastModel, b: DeviceBroadcastModel, rest: Seq<u8>, depth: nat)
    requires
        varint_field(3, i32_wire(b.device_type.0)).len() <= size_limit(),
    ensures
        merge_message::<DeviceBroadcast>(m, varint_field(3, i32_wire(b.device_type.0)) + rest, depth) == merge_message::<DeviceBroadcast>(
            DeviceBroadcastModel { device_type: if b.device_type.0 != 0 { b.device_type } else { m.device_type }, ..m },
            rest,
            depth,
        ),
{
    let next = DeviceBroadcastModel { device_type: if b.device_type.0 != 0 { b.device_type } else { m.device_type }, ..m };
    reveal(DeviceBroadcastModel::apply);
    lemma_i32_wire_roundtrip(b.device_type.0);
    lemma_merge_varint_field::<DeviceBroadcast>(m, 3, i32_wire(b.device_type.0), rest, next, depth);
}

/// Reading the `capabilities` field as `b` writes it merges it into `m`.
proof fn lemma_device_broadcast_read_capabilities(m: DeviceBroadcastModel, b: DeviceBroadcastModel, rest: Seq<u8>, depth: nat)
    requires
        packed_field(4, b.capabilities.map_values(|e: DeviceCapability| e.0)).len() <= size_limit(),
    ensures
        merge_message::<DeviceBroadcast>(m, packed_field(4, b.capabilities.map_values(|e: DeviceCapability| e.0)) + rest, depth) == merge_message::<DeviceBroadcast>(
            DeviceBroadcastModel { capabilities: m.capabilities + b.capabilities, ..m },
            rest,
            depth,
        ),
{
    let next = DeviceBroadcastModel { capabilities: m.capabilities + b.capabilities, ..m };
    reveal(DeviceBroadcastModel::apply);
    if b.capabilities.len() > 0 {
        let values = b.capabilities.map_values(|e: DeviceCapability| e.0);
        lemma_unpack_packed(values);
        assert(m.capabilities + values.map_values(|x: i32| DeviceCapability(x)) =~= m.capabilities + b.capabilities);
        lemma_merge_delimited::<DeviceBroadcast>(m, 4, packed(values), rest, next, depth);
    } else {
        assert(packed_field(4, b.capabilities.map_values(|e: DeviceCapability| e.0)) + rest =~= rest);
        assert(m.capabilities =~= m.capabilities + b.capabilities);
    }
}

/// Reading the `version` field as `b` writes it merges it into `m`.
proof fn lemma_device_broadcast_read_version(m: DeviceBroadcastModel, b: DeviceBroadcastModel, rest: Seq<u8>, depth: nat)
    requires
        bytes_field(5, encode_utf8(b.version)).len() <= size_limit(),
    ensures
        merge_message::<DeviceBroadcast>(m, bytes_field(5, encode_utf8(b.version)) + rest, depth) == merge_message::<DeviceBroadcast>(
            DeviceBroadcastModel { version: if b.version.len() > 0 { b.version } else { m.version }, ..m },
            rest,
            depth,
        ),
{
    let next = DeviceBroadcastModel { version: if b.version.len() > 0 { b.version } else { m.version }, ..m };
    reveal(DeviceBroadcastModel::apply);
    encode_utf8_decode_utf8(b.version);
    encode_utf8_valid_utf8(b.version);
    lemma_merge_bytes_field::<DeviceBroadcast>(m, 5, encode_utf8(b.version), rest, next, depth);
}

/// Reading the `timestamp` field as `b` writes it merges it into `m`.
proof fn lemma_device_broadcast_read_timestamp(m: DeviceBroadcastModel, b: DeviceBroadcastModel, rest: Seq<u8>, depth: nat)
    requires
        varint_field(6, b.timestamp).len() <= size_limit(),
    ensures
        merge_message::<DeviceBroadcast>(m, varint_field(6, b.timestamp) + rest, depth) == merge_message::<DeviceBroadcast>(
            DeviceBroadcastModel { timestamp: if b.timestamp != 0 { b.timestamp } else { m.timestamp }, ..m },
            rest,
            depth,
        ),
{
    let next = DeviceBroadcastModel { timestamp: if b.timestamp != 0 { b.timestamp } else { m.timestamp }, ..m };
    reveal(DeviceBroadcastModel::apply);
    lemma_merge_varint_field::<DeviceBroadcast>(m, 6, b.timestamp, rest, next, depth);
}

/// Reading the `public_key` field as `b` writes it merges it into `m`.
proof fn lemma_device_broadcast_read_public_key(m: DeviceBroadcastModel, b: DeviceBroadcastModel, rest: Seq<u8>, depth: nat)
    requires
        bytes_field(7, b.public_key).len() <= size_limit(),
    ensures
        merge_message::<DeviceBroadcast>(m, bytes_field(7, b.public_key) + rest, depth) == merge_message::<DeviceBroadcast>(
            DeviceBroadcastModel { public_key: if b.public_key.len() > 0 { b.public_key } else { m.public_key }, ..m },
            rest,
            depth,
        ),
{
    let next = DeviceBroadcastModel { public_key: if b.public_key.len() > 0 { b.public_key } else { m.public_key }, ..m };
    reveal(DeviceBroadcastModel::apply);
    lemma_merge_bytes_field::<DeviceBroadcast>(m, 7, b.public_key, rest, next, depth);
}

/// Reading the unknown fields as `b` writes them adds them to those of `m`.
proof fn lemma_device_broadcast_read_unknown(m: DeviceBroadcastModel, b: DeviceBroadcastModel, rest: Seq<u8>, depth: nat)
    requires
        b.unknown.len() <= size_limit(),
        b.well_formed_at(depth),
    ensures
        merge_message::<DeviceBroadcast>(m, b.unknown + rest, depth) == merge_message::<DeviceBroadcast>(
            DeviceBroadcastModel { unknown: m.unknown + b.unknown, ..m },
            rest,
            depth,
        ),
{
    lemma_merge_unknown::<DeviceBroadcast>(m, b.unknown, rest, depth);
}

/// Reading the wire form of `b` into `a`, with `depth` levels of nesting left,
/// gives `b` merged into `a`.
pub proof fn lemma_device_broadcast_merge_wire(a: DeviceBroadcastModel, b: DeviceBroadcastModel, depth: nat)
    requires
        b.encode().len() <= size_limit(),
        b.well_formed_at(depth),
    ensures
        merge_message::<DeviceBroadcast>(a, b.encode(), depth) == Some(a.merge(b)),
{
    let c1 = bytes_field(1, encode_utf8(b.device_id));
    let c2 = bytes_field(2, encode_utf8(b.device_name));
    let c3 = varint_field(3, i32_wire(b.device_type.0));
    let c4 = packed_field(4, b.capabilities.map_values(|e: DeviceCapability| e.0));
    let c5 = bytes_field(5, encode_utf8(b.version));
    let c6 = varint_field(6, b.timestamp);
    let c7 = bytes_field(7, b.public_key);
    let c8 = map_entries(8, b.metadata);
    let c9 = b.unknown;
    assert(b.encode() == c1 + c2 + c3 + c4 + c5 + c6 + c7 + c8 + c9) by {
        reveal(DeviceBroadcastModel::encode);
    }
    let m0 = a;
    let m1 = DeviceBroadcastModel { device_id: if b.device_id.len() > 0 { b.device_id } else { m0.device_id }, ..m0 };
    lemma_device_broadcast_read_device_id(m0, b, Seq::empty(), depth);
    assert(c1 + Seq::empty() =~= c1);
    lemma_merge_nothing::<DeviceBroadcast>(m1, depth);
    let m2 = DeviceBroadcastModel { device_name: if b.device_name.len() > 0 { b.device_name } else { m1.device_name }, ..m1 };
    lemma_device_broadcast_read_device_name(m1, b, Seq::empty(), depth);
    assert(c2 + Seq::empty() =~= c2);
    lemma_merge_nothing::<DeviceBroadcast>(m2, depth);
    lemma_merge_concat::<DeviceBroadcast>(a, c1, c2, depth);
    let m3 = DeviceBroadcastModel { device_type: if b.device_type.0 != 0 { b.device_type } else { m2.device_type }, ..m2 };
    lemma_device_broadcast_read_device_type(m2, b, Seq::empty(), depth);
    assert(c3 + Seq::empty() =~= c3);
    lemma_merge_nothing::<DeviceBroadcast>(m3, depth);
    lemma_merge_concat::<DeviceBroadcast>(a, c1 + c2, c3, depth);
    let m4 = DeviceBroadcastModel { capabilities: m3.capabilities + b.capabilities, ..m3 };
    lemma_device_broadcast_read_capabilities(m3, b, Seq::empty(), depth);
    assert(c4 + Seq::empty() =~= c4);
    lemma_merge_nothing::<DeviceBroadcast>(m4, depth);
    lemma_merge_concat::<DeviceBroadcast>(a, c1 + c2 + c3, c4, depth);
    let m5 = DeviceBroadcastModel { version: if b.version.len() > 0 { b.version } else { m4.version }, ..m4 };
    lemma_device_broadcast_read_version(m4, b, Seq::empty(), depth);
    assert(c5 + Seq::empty() =~= c5);
    lemma_merge_nothing::<DeviceBroadcast>(m5, depth);
    lemma_merge_concat::<DeviceBroadcast>(a, c1 + c2 + c3 + c4, c5, depth);
    let m6 = DeviceBroadcastModel { timestamp: if b.timestamp != 0 { b.timestamp } else { m5.timestamp }, ..m5 };
    lemma_device_broadcast_read_timestamp(m5, b, Seq::empty(), depth);
    assert(c6 + Seq::empty() =~= c6);
    lemma_merge_nothing::<DeviceBroadcast>(m6, depth);
    lemma_merge_concat::<DeviceBroadcast>(a, c1 + c2 + c3 + c4 + c5, c6, depth);
    let m7 = DeviceBroadcastModel { public_key: if b.public_key.len() > 0 { b.public_key } else { m6.public_key }, ..m6 };
    lemma_device_broadcast_read_public_key(m6, b, Seq::empty(), depth);
    assert(c7 + Seq::empty() =~= c7);
    lemma_merge_nothing::<DeviceBroadcast>(m7, depth);
    lemma_merge_concat::<DeviceBroadcast>(a, c1 + c2 + c3 + c4 + c5 + c6, c7, depth);
    let m8 = DeviceBroadcastModel { metadata: map_insert_all(m7.metadata, b.metadata), ..m7 };
    lemma_device_broadcast_metadata(m7, b.metadata, Seq::empty(), depth);
    assert(c8 + Seq::empty() =~= c8);
    lemma_merge_nothing::<DeviceBroadcast>(m8, depth);
    lemma_merge_concat::<DeviceBroadcast>(a, c1 + c2 + c3 + c4 + c5 + c6 + c7, c8, depth);
    let m9 = DeviceBroadcastModel { unknown: m8.unknown + b.unknown, ..m8 };
    lemma_device_broadcast_read_unknown(m8, b, Seq::empty(), depth);
    assert(c9 + Seq::empty() =~= c9);
    lemma_merge_nothing::<DeviceBroadcast>(m9, depth);
    lemma_merge_concat::<DeviceBroadcast>(a, c1 + c2 + c3 + c4 + c5 + c6 + c7 + c8, c9, depth);
    assert(m9 == a.merge(b)) by {
        reveal(DeviceBroadcastModel::merge);
    }
}

/// Merging the empty message changes nothing.
pub proof fn lemma_device_broadcast_merge_empty(a: DeviceBroadcastModel)
    ensures
        a.merge(DeviceBroadcastModel::empty()) == a,
{
    reveal(DeviceBroadcastModel::merge);
    assert(a.capabilities + Seq::empty() =~= a.capabilities);
    assert(a.unknown + Seq::empty() =~= a.unknown);
    assert(a.merge(DeviceBroadcastModel::empty()) =~= a);
}

/// Merging a message into the empty one gives that message.
pub proof fn lemma_device_broadcast_empty_merge(b: DeviceBroadcastModel)
    requires
        b.well_formed(),
    ensures
        DeviceBroadcastModel::empty().merge(b) == b,
{
    reveal(DeviceBroadcastModel::merge);
    assert(b.device_id.len() == 0 ==> b.device_id =~= Seq::<char>::empty());
    assert(b.device_name.len() == 0 ==> b.device_name =~= Seq::<char>::empty());
    assert(Seq::empty() + b.capabilities =~= b.capabilities);
    assert(b.version.len() == 0 ==> b.version =~= Seq::<char>::empty());
    assert(b.public_key.len() == 0 ==> b.public_key =~= Seq::<u8>::empty());
    assert(Seq::<(Seq<char>, Seq<char>)>::empty() + b.metadata =~= b.metadata);
    lemma_map_insert_all_fresh(Seq::empty(), b.metadata);
    assert(Seq::empty() + b.unknown =~= b.unknown);
    assert(DeviceBroadcastModel::empty().merge(b) =~= b);
}

/// Writing a message out and reading it back, with `depth` levels of
/// nesting left (`group_depth_limit()` for a message read on its own),
/// gives the same message.
pub proof fn lemma_device_broadcast_roundtrip(m: DeviceBroadcastModel, depth: nat)
    requires
        m.encode().len() <= size_limit(),
        m.well_formed_at(depth),
    ensures
        merge_message::<DeviceBroadcast>(DeviceBroadcastModel::empty(), m.encode(), depth) == Some(m),
{
    lemma_device_broadcast_merge_wire(DeviceBroadcastModel::empty(), m, depth);
    lemma_device_broadcast_empty_merge(m);
}

/// Reading two encoded messages written one after the other, with `depth`
/// levels of nesting left, gives the second merged into the first.
pub proof fn lemma_device_broadcast_concat(a: DeviceBroadcastModel, b: DeviceBroadcastModel, depth: nat)
    requires
        a.encode().len() <= size_limit(),
        b.encode().len() <= size_limit(),
        a.well_formed_at(depth),
        b.well_formed_at(depth),
    ensures
        merge_message::<DeviceBroadcast>(DeviceBroadcastModel::empty(), a.encode() + b.encode(), depth) == Some(a.merge(b)),
{
    lemma_device_broadcast_roundtrip(a, depth);
    lemma_merge_concat::<DeviceBroadcast>(DeviceBroadcastModel::empty(), a.encode(), b.encode(), depth);
    lemma_device_broadcast_merge_wire(a, b, depth);
}

/// Merging two well-formed messages gives a well-formed message.
pub proof fn lemma_device_broadcast_merge_well_formed(a: DeviceBroadcastModel, b: DeviceBroadcastModel)
    requires
        a.well_formed(),
        b.well_formed(),
    ensures
        a.merge(b).well_formed(),
{
    reveal(DeviceBroadcastModel::merge);
    lemma_unknown_fields_concat::<DeviceBroadcast>(a.unknown, b.unknown, group_depth_limit());
    lemma_map_insert_all_unique(a.metadata, b.metadata);
}

/// Reading one whole field into a well-formed message keeps it well formed.
proof fn lemma_device_broadcast_apply_well_formed(m: DeviceBroadcastModel, field: nat, value: WireValue, raw: Seq<u8>, depth: nat)
    requires
        m.well_formed(),
        depth <= group_depth_limit(),
        decode_field(raw, depth) == Some((field, value, raw.len())),
        m.apply(field, value, raw, depth) is Some,
    ensures
        m.apply(field, value, raw, depth)->0.well_formed(),
{
    reveal(DeviceBroadcastModel::apply);
    if DeviceBroadcastModel::keeps_unknown(field, value) {
        lemma_decode_field_deeper(raw, depth, group_depth_limit());
        lemma_unknown_field::<DeviceBroadcast>(raw, field, value, group_depth_limit());
        lemma_unknown_fields_concat::<DeviceBroadcast>(m.unknown, raw, group_depth_limit());
    } else if field == 8 {
        if let WireValue::Delimited(b) = value {
            let e = merge_message::<MetadataEntry>(MetadataEntryModel::empty(), b, (depth - 1) as nat)->0;
            lemma_map_insert_lookup(m.metadata, e.key, e.value, e.key);
        }
    }
}

/// Reading whole fields into a well-formed message, with at most
/// `group_depth_limit()` levels of nesting left, keeps it well formed.
pub proof fn lemma_device_broadcast_parse_well_formed(m: DeviceBroadcastModel, s: Seq<u8>, depth: nat)
    requires
        m.well_formed(),
        depth <= group_depth_limit(),
        merge_message::<DeviceBroadcast>(m, s, depth) is Some,
    ensures
        merge_message::<DeviceBroadcast>(m, s, depth)->0.well_formed(),
{
    assert forall|x: DeviceBroadcastModel, field: nat, value: WireValue, raw: Seq<u8>|
        x.well_formed() && decode_field(raw, depth) == Some((field, value, raw.len())) && #[trigger] DeviceBroadcast::apply_wire(
            x,
            field,
            value,
            raw,
            depth,
        ) is Some implies DeviceBroadcast::apply_wire(x, field, value, raw, depth)->0.well_formed() by {
        lemma_device_broadcast_apply_well_formed(x, field, value, raw, depth);
    }
    lemma_merge_preserves::<DeviceBroadcast>(m, s, |x: DeviceBroadcastModel| x.well_formed(), depth);
}

/// Reading `capabilities` written unpacked, one varint field per value, appends
/// every value, in order, to the list read so far.
pub proof fn lemma_device_broadcast_capabilities_unpacked(m: DeviceBroadcastModel, values: Seq<i32>, rest: Seq<u8>, depth: nat)
    ensures
        merge_message::<DeviceBroadcast>(m, unpacked(4, values) + rest, depth) == merge_message::<DeviceBroadcast>(
            (DeviceBroadcastModel { capabilities: m.capabilities + values.map_values(|x: i32| DeviceCapability(x)), ..m }),
            rest,
            depth,
        ),
    decreases values.len(),
{
    if values.len() == 0 {
        assert(unpacked(4, values) + rest =~= rest);
        assert(m.capabilities + values.map_values(|x: i32| DeviceCapability(x)) =~= m.capabilities);
    } else {
        let v = values[0];
        let next = DeviceBroadcastModel { capabilities: m.capabilities.push(DeviceCapability(v)), ..m };
        let tail = unpacked(4, values.drop_first()) + rest;
        reveal(DeviceBroadcastModel::apply);
        lemma_i32_wire_roundtrip(v);
        assert(unpacked(4, values) + rest =~= field_key(4, 0) + varint(i32_wire(v) as nat) + tail);
        lemma_merge_varint::<DeviceBroadcast>(m, 4, i32_wire(v), tail, next, depth);
        lemma_device_broadcast_capabilities_unpacked(next, values.drop_first(), rest, depth);
        assert(next.capabilities + values.drop_first().map_values(|x: i32| DeviceCapability(x)) =~= m.capabilities + values.map_values(|x: i32| DeviceCapability(x)));
    }
}

/// `capabilities` reads the same written packed as written unpacked.
pub proof fn lemma_device_broadcast_capabilities_packed_as_unpacked(m: DeviceBroadcastModel, values: Seq<i32>, rest: Seq<u8>, depth: nat)
    requires
        packed_field(4, values).len() <= size_limit(),
    ensures
        merge_message::<DeviceBroadcast>(m, packed_field(4, values) + rest, depth) == merge_message::<DeviceBroadcast>(
            m,
            unpacked(4, values) + rest,
            depth,
        ),
{
    lemma_device_broadcast_capabilities_unpacked(m, values, rest, depth);
    let next = DeviceBroadcastModel { capabilities: m.capabilities + values.map_values(|x: i32| DeviceCapability(x)), ..m };
    if values.len() == 0 {
        assert(packed_field(4, values) + rest =~= rest);
        assert(m.capabilities + values.map_values(|x: i32| DeviceCapability(x)) =~= m.capabilities);
        assert(next =~= m);
    } else {
        reveal(DeviceBroadcastModel::apply);
        lemma_unpack_packed(values);
        lemma_merge_delimited::<DeviceBroadcast>(m, 4, packed(values), rest, next, depth);
    }
}

/// Reading the entries of `metadata` inserts them, in order.
proof fn lemma_device_broadcast_metadata(m: DeviceBroadcastModel, entries: Seq<(Seq<char>, Seq<char>)>, rest: Seq<u8>, depth: nat)
    requires
        map_entries(8, entries).len() <= size_limit(),
        entries.len() > 0 ==> depth >= 1,
    ensures
        merge_message::<DeviceBroadcast>(m, map_entries(8, entries) + rest, depth) == merge_message::<DeviceBroadcast>(
            (DeviceBroadcastModel { metadata: map_insert_all(m.metadata, entries), ..m }),
            rest,
            depth,
        ),
    decreases entries.len(),
{
    reveal(DeviceBroadcastModel::apply);
    if entries.len() == 0 {
        assert(map_entries(8, entries) + rest =~= rest);
    } else {
        let (k, v) = entries[0];
        let next = DeviceBroadcastModel { metadata: map_insert(m.metadata, k, v), ..m };
        lemma_metadata_entry_roundtrip(k, v, (depth - 1) as nat);
        assert(entries.map_values(|e: (Seq<char>, Seq<char>)| entry_encode(e.0, e.1)).drop_first()
            =~= entries.drop_first().map_values(|e: (Seq<char>, Seq<char>)| entry_encode(e.0, e.1)));
        assert(map_entries(8, entries) + rest =~= delimited(8, entry_encode(k, v)) + (map_entries(8, entries.drop_first()) + rest));
        lemma_merge_delimited::<DeviceBroadcast>(m, 8, entry_encode(k, v), map_entries(8, entries.drop_first()) + rest, next, depth);
        lemma_device_broadcast_metadata(next, entries.drop_first(), rest, depth);
    }
}

/// The announcement a device makes of itself on the local network.
pub struct DeviceBroadcast {
    device_id: String,
    device_name: String,
    device_type: DeviceType,
    capabilities: Vec<DeviceCapability>,
    version: String,
    timestamp: u64,
    public_key: Vec<u8>,
    metadata: MetadataMap,
    unknown: DeviceBroadcastUnknown,
}

impl View for DeviceBroadcast {
    type V = DeviceBroadcastModel;

    closed spec fn view(&self) -> DeviceBroadcastModel {
        DeviceBroadcastModel {
            device_id: self.device_id@,
            device_name: self.device_name@,
            device_type: self.device_type,
            capabilities: self.capabilities@,
            version: self.version@,
            timestamp: self.timestamp,
            public_key: self.public_key@,
            metadata: self.metadata@,
            unknown: self.unknown@,
        }
    }
}

/// The unknown fields of a `DeviceBroadcast`: whole fields it does not read, as they
/// came, in order.
struct DeviceBroadcastUnknown {
    bytes: Vec<u8>,
}

impl View for DeviceBroadcastUnknown {
    type V = Seq<u8>;

    closed spec fn view(&self) -> Seq<u8> {
        if unknown_run(self.bytes@, DeviceBroadcastModel::keeps(), group_depth_limit()) {
            self.bytes@
        } else {
            Seq::empty()
        }
    }
}

impl DeviceBroadcastUnknown {
    #[verifier::type_invariant]
    closed spec fn whole(self) -> bool {
        unknown_run(self.bytes@, DeviceBroadcastModel::keeps(), group_depth_limit())
    }

    fn new() -> (r: Self)
        ensures
            r@ == Seq::<u8>::empty(),
    {
        proof {
            lemma_unknown_run_empty(DeviceBroadcastModel::keeps(), group_depth_limit());
        }
        DeviceBroadcastUnknown { bytes: Vec::new() }
    }

    /// Adds one whole field that the message does not read.
    fn push_field(&mut self, raw: &[u8], Ghost(field): Ghost<nat>, Ghost(value): Ghost<WireValue>)
        requires
            decode_field(raw@, group_depth_limit()) == Some((field, value, raw@.len())),
            DeviceBroadcastModel::keeps_unknown(field, value),
        ensures
            final(self)@ == old(self)@ + raw@,
    {
        proof {
            use_type_invariant(&*self);
            lemma_unknown_run_field(raw@, field, value, DeviceBroadcastModel::keeps(), group_depth_limit());
            lemma_unknown_run_concat(self.bytes@, raw@, DeviceBroadcastModel::keeps(), group_depth_limit());
            lemma_unknown_run_empty(DeviceBroadcastModel::keeps(), group_depth_limit());
        }
        let mut bytes = Vec::new();
        std::mem::swap(&mut bytes, &mut self.bytes);
        append_bytes(&mut bytes, raw);
        self.bytes = bytes;
    }

    /// Adds the unknown fields of another message of the same kind.
    fn append(&mut self, other: &Self)
        ensures
            final(self)@ == old(self)@ + other@,
    {
        proof {
            use_type_invariant(&*self);
            use_type_invariant(other);
            lemma_unknown_run_concat(self.bytes@, other.bytes@, DeviceBroadcastModel::keeps(), group_depth_limit());
            lemma_unknown_run_empty(DeviceBroadcastModel::keeps(), group_depth_limit());
        }
        let mut bytes = Vec::new();
        std::mem::swap(&mut bytes, &mut self.bytes);
        append_bytes(&mut bytes, other.bytes.as_slice());
        self.bytes = bytes;
    }

    fn as_slice(&self) -> (r: &[u8])
        ensures
            r@ == self@,
    {
        proof {
            use_type_invariant(self);
        }
        self.bytes.as_slice()
    }

    fn copy(&self) -> (r: Self)
        ensures
            r@ == self@,
    {
        proof {
            use_type_invariant(self);
        }
        DeviceBroadcastUnknown { bytes: copy_bytes(self.bytes.as_slice()) }
    }
}

impl WireMessage for DeviceBroadcast {
    open spec fn apply_wire(message: DeviceBroadcastModel, field: nat, value: WireValue, raw: Seq<u8>, depth: nat) -> Option<DeviceBroadcastModel> {
        message.apply(field, value, raw, depth)
    }

    open spec fn keeps_unknown(field: nat, value: WireValue) -> bool {
        DeviceBroadcastModel::keeps_unknown(field, value)
    }

    open spec fn add_unknown(message: DeviceBroadcastModel, raw: Seq<u8>) -> DeviceBroadcastModel {
        DeviceBroadcastModel { unknown: message.unknown + raw, ..message }
    }

    proof fn lemma_apply_unknown(message: DeviceBroadcastModel, field: nat, value: WireValue, raw: Seq<u8>, depth: nat) {
        reveal(DeviceBroadcastModel::apply);
    }

    proof fn lemma_add_unknown(message: DeviceBroadcastModel, a: Seq<u8>, b: Seq<u8>) {
        assert(message.unknown + a + b =~= message.unknown + (a + b));
        assert(message.unknown + Seq::<u8>::empty() =~= message.unknown);
    }

    fn apply_field(
        &mut self,
        data: &[u8],
        field: u32,
        value: FieldValue,
        start: usize,
        end: usize,
        depth: u32,
    ) -> (ok: bool) {
        proof {
            reveal(DeviceBroadcastModel::apply);
        }
        if field == 1 {
            if let FieldValue::Delimited(from, to) = value {
                match proto_string(&data[from..to]) {
                    Some(text) => self.device_id = text,
                    None => return false,
                }
                return true;
            }
        } else if field == 2 {
            if let FieldValue::Delimited(from, to) = value {
                match proto_string(&data[from..to]) {
                    Some(text) => self.device_name = text,
                    None => return false,
                }
                return true;
            }
        } else if field == 3 {
            if let FieldValue::Varint(v) = value {
                self.device_type = DeviceType(to_i32(v));
                return true;
            }
        } else if field == 4 {
            match value {
                FieldValue::Varint(v) => {
                    self.capabilities.push(DeviceCapability(to_i32(v)));
                    return true;
                },
                FieldValue::Delimited(from, to) => match read_packed(&data[from..to]) {
                    Some(values) => {
                        DeviceCapability::extend_from_values(&mut self.capabilities, values.as_slice());
                        return true;
                    },
                    None => return false,
                },
                _ => {},
            }
        } else if field == 5 {
            if let FieldValue::Delimited(from, to) = value {
                match proto_string(&data[from..to]) {
                    Some(text) => self.version = text,
                    None => return false,
                }
                return true;
            }
        } else if field == 6 {
            if let FieldValue::Varint(v) = value {
                self.timestamp = v;
                return true;
            }
        } else if field == 7 {
            if let FieldValue::Delimited(from, to) = value {
                self.public_key = copy_bytes(&data[from..to]);
                return true;
            }
        } else if field == 8 {
            if let FieldValue::Delimited(from, to) = value {
                if depth == 0 {
                    return false;
                }
                let mut entry = MetadataEntry::new();
                if !merge_bytes(&mut entry, &data[from..to], depth - 1) {
                    return false;
                }
                self.metadata.insert_entry(entry);
                return true;
            }
        }
        proof {
            lemma_decode_field_deeper(data@.subrange(start as int, end as int), depth as nat, group_depth_limit());
        }
        self.unknown.push_field(&data[start..end], Ghost(field as nat), Ghost(value.wire(data@)));
        true
    }
}

/// The content of every `DeviceBroadcast` is well formed.
pub proof fn lemma_device_broadcast_well_formed(m: DeviceBroadcast)
    ensures
        m@.well_formed(),
{
    lemma_unknown_run_fields::<DeviceBroadcast>(m.unknown.bytes@, DeviceBroadcastModel::keeps(), group_depth_limit());
    lemma_metadata_keys_unique(m.metadata);
}

impl DeviceBroadcast {
    /// A message with every field at its default.
    pub fn new() -> (r: Self)
        ensures
            r@ == DeviceBroadcastModel::empty(),
    {
        let r = DeviceBroadcast {
            device_id: String::new(),
            device_name: String::new(),
            device_type: DeviceType(0),
            capabilities: Vec::new(),
            version: String::new(),
            timestamp: 0,
            public_key: Vec::new(),
            metadata: MetadataMap::new(),
            unknown: DeviceBroadcastUnknown::new(),
        };
        r
    }

    /// Reads a message from its wire form.
    pub fn parse(data: &[u8]) -> (r: Result<Self, protobuf::ParseError>)
        ensures
            match merge_message::<DeviceBroadcast>(DeviceBroadcastModel::empty(), data@, group_depth_limit()) {
                Some(m) => r matches Ok(msg) && msg@ == m && m.well_formed(),
                None => r is Err,
            },
    {
        proof {
            if merge_message::<DeviceBroadcast>(DeviceBroadcastModel::empty(), data@, group_depth_limit()) is Some {
                lemma_device_broadcast_parse_well_formed(DeviceBroadcastModel::empty(), data@, group_depth_limit());
            }
        }
        let mut msg = Self::new();
        if merge_bytes(&mut msg, data, 100) {
            Ok(msg)
        } else {
            Err(parse_error())
        }
    }

    /// Same as `parse`: the message has no required fields.
    pub fn parse_dont_enforce_required(data: &[u8]) -> (r: Result<Self, protobuf::ParseError>)
        ensures
            match merge_message::<DeviceBroadcast>(DeviceBroadcastModel::empty(), data@, group_depth_limit()) {
                Some(m) => r matches Ok(msg) && msg@ == m && m.well_formed(),
                None => r is Err,
            },
    {
        Self::parse(data)
    }

    /// Resets every field to its default.
    pub fn clear(&mut self)
        ensures
            final(self)@ == DeviceBroadcastModel::empty(),
    {
        *self = DeviceBroadcast::new();
    }

    /// Replaces the message by the one `data` encodes; on an error what the
    /// message then holds is unspecified.
    pub fn clear_and_parse(&mut self, data: &[u8]) -> (r: Result<(), protobuf::ParseError>)
        ensures
            match merge_message::<DeviceBroadcast>(DeviceBroadcastModel::empty(), data@, group_depth_limit()) {
                Some(m) => r is Ok && final(self)@ == m && m.well_formed(),
                None => r is Err,
            },
    {
        proof {
            if merge_message::<DeviceBroadcast>(DeviceBroadcastModel::empty(), data@, group_depth_limit()) is Some {
                lemma_device_broadcast_parse_well_formed(DeviceBroadcastModel::empty(), data@, group_depth_limit());
            }
        }
        *self = DeviceBroadcast::new();
        if merge_bytes(self, data, 100) {
            Ok(())
        } else {
            Err(parse_error())
        }
    }

    /// Same as `clear_and_parse`: the message has no required fields; on an error what the
    /// message then holds is unspecified.
    pub fn clear_and_parse_dont_enforce_required(&mut self, data: &[u8]) -> (r: Result<(), protobuf::ParseError>)
        ensures
            match merge_message::<DeviceBroadcast>(DeviceBroadcastModel::empty(), data@, group_depth_limit()) {
                Some(m) => r is Ok && final(self)@ == m && m.well_formed(),
                None => r is Err,
            },
    {
        self.clear_and_parse(data)
    }

    /// Makes this message a copy of `src`.
    pub fn copy_from(&mut self, src: DeviceBroadcastView<'_>)
        ensures
            final(self)@ == src@,
    {
        *self = src.to_owned();
    }

    /// Moves the content of `src` here, leaving `src` empty.
    pub fn take_from(&mut self, src: &mut DeviceBroadcast)
        ensures
            final(self)@ == old(src)@,
            final(src)@ == DeviceBroadcastModel::empty(),
    {
        let mut taken = DeviceBroadcast::new();
        std::mem::swap(&mut taken, src);
        *self = taken;
    }

    /// Merges `src` into this message (see `merge` on the model).
    pub fn merge_from(&mut self, src: DeviceBroadcastView<'_>)
        ensures
            final(self)@ == old(self)@.merge(src@),
    {
        match src.msg {
            Some(other) => self.merge_fields_from(other),
            None => {
                proof {
                    lemma_device_broadcast_merge_empty(self@);
                }
            },
        }
    }

    fn merge_fields_from(&mut self, other: &DeviceBroadcast)
        ensures
            final(self)@ == old(self)@.merge(other@),
    {
        proof {
            reveal(DeviceBroadcastModel::merge);
        }
        let ghost start = self@;
        if !other.device_id.as_str().is_empty() {
            self.device_id = other.device_id.clone();
        }
        if !other.device_name.as_str().is_empty() {
            self.device_name = other.device_name.clone();
        }
        if other.device_type.0 != 0 {
            self.device_type = other.device_type;
        }
        let mut extra = copy_items(other.capabilities.as_slice());
        let ghost before = self.capabilities@;
        self.capabilities.append(&mut extra);
        assert(self.capabilities@ =~= before + other.capabilities@);
        if !other.version.as_str().is_empty() {
            self.version = other.version.clone();
        }
        if other.timestamp != 0 {
            self.timestamp = other.timestamp;
        }
        if other.public_key.len() > 0 {
            self.public_key = copy_bytes(other.public_key.as_slice());
        }
        self.metadata.insert_all(&other.metadata);
        self.unknown.append(&other.unknown);
        assert(self@ =~= start.merge(other@));
    }

    /// Appends the wire form to `buf`.
    pub fn write_to(&self, buf: &mut Vec<u8>)
        ensures
            final(buf)@ == old(buf)@ + self@.encode(),
    {
        let ghost start = buf@;
        let ghost c1 = bytes_field(1, encode_utf8(self@.device_id));
        let ghost c2 = bytes_field(2, encode_utf8(self@.device_name));
        let ghost c3 = varint_field(3, i32_wire(self@.device_type.0));
        let ghost c4 = packed_field(4, self@.capabilities.map_values(|e: DeviceCapability| e.0));
        let ghost c5 = bytes_field(5, encode_utf8(self@.version));
        let ghost c6 = varint_field(6, self@.timestamp);
        let ghost c7 = bytes_field(7, self@.public_key);
        let ghost c8 = map_entries(8, self@.metadata);
        let ghost c9 = self@.unknown;
        write_bytes_field(buf, 1, self.device_id.as_str().as_bytes());
        let ghost mut written = c1;
        assert(buf@ == start + written);
        write_bytes_field(buf, 2, self.device_name.as_str().as_bytes());
        proof {
            lemma_concat_associative(start, written, c2);
            written = written + c2;
        }
        assert(buf@ == start + written);
        write_varint_field(buf, 3, from_i32(self.device_type.0));
        proof {
            lemma_concat_associative(start, written, c3);
            written = written + c3;
        }
        assert(buf@ == start + written);
        let capabilities_values = DeviceCapability::values_of(self.capabilities.as_slice());
        write_packed_field(buf, 4, capabilities_values.as_slice());
        proof {
            lemma_concat_associative(start, written, c4);
            written = written + c4;
        }
        assert(buf@ == start + written);
        write_bytes_field(buf, 5, self.version.as_str().as_bytes());
        proof {
            lemma_concat_associative(start, written, c5);
            written = written + c5;
        }
        assert(buf@ == start + written);
        write_varint_field(buf, 6, self.timestamp);
        proof {
            lemma_concat_associative(start, written, c6);
            written = written + c6;
        }
        assert(buf@ == start + written);
        write_bytes_field(buf, 7, self.public_key.as_slice());
        proof {
            lemma_concat_associative(start, written, c7);
            written = written + c7;
        }
        assert(buf@ == start + written);
        self.metadata.write_entries(buf, 8);
        proof {
            lemma_concat_associative(start, written, c8);
            written = written + c8;
        }
        assert(buf@ == start + written);
        append_bytes(buf, self.unknown.as_slice());
        proof {
            lemma_concat_associative(start, written, c9);
            written = written + c9;
        }
        assert(buf@ == start + written);
        assert(self@.encode() == written) by {
            assert(written == c1 + c2 + c3 + c4 + c5 + c6 + c7 + c8 + c9);
            reveal(DeviceBroadcastModel::encode);
        }
    }

    /// The wire form, refused when it is longer than `i32::MAX` bytes. The
    /// message is well formed, so the wire form reads back as the message.
    pub fn serialize(&self) -> (r: Result<Vec<u8>, protobuf::SerializeError>)
        ensures
            match r {
                Ok(bytes) => bytes@ == self@.encode() && self@.encode().len() <= 0x7fff_ffff,
                Err(_) => self@.encode().len() > 0x7fff_ffff,
            },
            self@.well_formed(),
            self@.encode().len() <= size_limit() ==> merge_message::<DeviceBroadcast>(
                DeviceBroadcastModel::empty(),
                self@.encode(),
                group_depth_limit(),
            ) == Some(self@),
    {
        proof {
            lemma_device_broadcast_well_formed(*self);
            if self@.encode().len() <= size_limit() {
                lemma_device_broadcast_roundtrip(self@, group_depth_limit());
            }
        }
        let mut buf = Vec::new();
        self.write_to(&mut buf);
        assert(buf@ =~= self@.encode());
        if buf.len() > 0x7fff_ffff {
            return Err(serialize_error());
        }
        Ok(buf)
    }

    pub fn as_view(&self) -> (r: DeviceBroadcastView<'_>)
        ensures
            r@ == self@,
    {
        DeviceBroadcastView::new(self)
    }

    pub fn as_mut(&mut self) -> (r: DeviceBroadcastMut<'_>)
        ensures
            r@ == old(self)@,
            *final(self) == *final(r.msg),
    {
        DeviceBroadcastMut::new(self)
    }

    pub fn device_id(&self) -> (r: &str)
        ensures
            r@ == self@.device_id,
    {
        self.device_id.as_str()
    }

    pub fn set_device_id(&mut self, val: &str)
        ensures
            final(self)@ == (DeviceBroadcastModel { device_id: val@, ..old(self)@ }),
    {
        self.device_id = val.to_owned();
    }

    pub fn device_name(&self) -> (r: &str)
        ensures
            r@ == self@.device_name,
    {
        self.device_name.as_str()
    }

    pub fn set_device_name(&mut self, val: &str)
        ensures
            final(self)@ == (DeviceBroadcastModel { device_name: val@, ..old(self)@ }),
    {
        self.device_name = val.to_owned();
    }

    pub fn device_type(&self) -> (r: DeviceType)
        ensures
            r == self@.device_type,
    {
        self.device_type
    }

    pub fn set_device_type(&mut self, val: DeviceType)
        ensures
            final(self)@ == (DeviceBroadcastModel { device_type: val, ..old(self)@ }),
    {
        self.device_type = val;
    }

    pub fn capabilities(&self) -> (r: &[DeviceCapability])
        ensures
            r@ == self@.capabilities,
    {
        self.capabilities.as_slice()
    }

    pub fn capabilities_mut(&mut self) -> (r: &mut Vec<DeviceCapability>)
        ensures
            (*r)@ == old(self)@.capabilities,
            final(self)@ == (DeviceBroadcastModel { capabilities: (*final(r))@, ..old(self)@ }),
    {
        &mut self.capabilities
    }

    pub fn set_capabilities(&mut self, src: Vec<DeviceCapability>)
        ensures
            final(self)@ == (DeviceBroadcastModel { capabilities: src@, ..old(self)@ }),
    {
        self.capabilities = src;
    }

    pub fn version(&self) -> (r: &str)
        ensures
            r@ == self@.version,
    {
        self.version.as_str()
    }

    pub fn set_version(&mut self, val: &str)
        ensures
            final(self)@ == (DeviceBroadcastModel { version: val@, ..old(self)@ }),
    {
        self.version = val.to_owned();
    }

    pub fn timestamp(&self) -> (r: u64)
        ensures
            r == self@.timestamp,
    {
        self.timestamp
    }

    pub fn set_timestamp(&mut self, val: u64)
        ensures
            final(self)@ == (DeviceBroadcastModel { timestamp: val, ..old(self)@ }),
    {
        self.timestamp = val;
    }

    pub fn public_key(&self) -> (r: &[u8])
        ensures
            r@ == self@.public_key,
    {
        self.public_key.as_slice()
    }

    pub fn set_public_key(&mut self, val: &[u8])
        ensures
            final(self)@ == (DeviceBroadcastModel { public_key: val@, ..old(self)@ }),
    {
        self.public_key = copy_bytes(val);
    }

    pub fn metadata(&self) -> (r: &MetadataMap)
        ensures
            r@ == self@.metadata,
    {
        &self.metadata
    }

    pub fn metadata_mut(&mut self) -> (r: &mut MetadataMap)
        ensures
            (*r)@ == old(self)@.metadata,
            final(self)@ == (DeviceBroadcastModel { metadata: (*final(r))@, ..old(self)@ }),
    {
        &mut self.metadata
    }

    pub fn set_metadata(&mut self, src: MetadataMap)
        ensures
            final(self)@ == (DeviceBroadcastModel { metadata: src@, ..old(self)@ }),
    {
        self.metadata = src;
    }
}

impl Clone for DeviceBroadcast {
    fn clone(&self) -> (r: Self)
        ensures
            r@ == self@,
    {
        let r = DeviceBroadcast {
            device_id: self.device_id.clone(),
            device_name: self.device_name.clone(),
            device_type: self.device_type,
            capabilities: copy_items(self.capabilities.as_slice()),
            version: self.version.clone(),
            timestamp: self.timestamp,
            public_key: copy_bytes(self.public_key.as_slice()),
            metadata: self.metadata.clone(),
            unknown: self.unknown.copy(),
        };
        r
    }
}

impl Default for DeviceBroadcast {
    fn default() -> (r: Self)
        ensures
            r@ == DeviceBroadcastModel::empty(),
    {
        Self::new()
    }
}

/// Read access to a `DeviceBroadcast`; the default view reads as the empty message.
#[derive(Clone, Copy)]
pub struct DeviceBroadcastView<'msg> {
    msg: Option<&'msg DeviceBroadcast>,
}

impl<'msg> View for DeviceBroadcastView<'msg> {
    type V = DeviceBroadcastModel;

    closed spec fn view(&self) -> DeviceBroadcastModel {
        match self.msg {
            Some(m) => m@,
            None => DeviceBroadcastModel::empty(),
        }
    }
}

impl<'msg> DeviceBroadcastView<'msg> {
    pub fn new(msg: &'msg DeviceBroadcast) -> (r: Self)
        ensures
            r@ == msg@,
    {
        DeviceBroadcastView { msg: Some(msg) }
    }

    /// An owned copy of the message.
    pub fn to_owned(&self) -> (r: DeviceBroadcast)
        ensures
            r@ == self@,
    {
        match self.msg {
            Some(m) => m.clone(),
            None => DeviceBroadcast::new(),
        }
    }

    /// The wire form, refused when it is longer than `i32::MAX` bytes. The
    /// message is well formed, so the wire form reads back as the message.
    pub fn serialize(&self) -> (r: Result<Vec<u8>, protobuf::SerializeError>)
        ensures
            match r {
                Ok(bytes) => bytes@ == self@.encode() && self@.encode().len() <= 0x7fff_ffff,
                Err(_) => self@.encode().len() > 0x7fff_ffff,
            },
            self@.well_formed(),
            self@.encode().len() <= size_limit() ==> merge_message::<DeviceBroadcast>(
                DeviceBroadcastModel::empty(),
                self@.encode(),
                group_depth_limit(),
            ) == Some(self@),
    {
        match self.msg {
            Some(m) => m.serialize(),
            None => DeviceBroadcast::new().serialize(),
        }
    }

    pub fn device_id(self) -> (r: &'msg str)
        ensures
            r@ == self@.device_id,
    {
        match self.msg {
            Some(m) => m.device_id.as_str(),
            None => {
                proof {
                    reveal_strlit("");
                }
                ""
            },
        }
    }

    pub fn device_name(self) -> (r: &'msg str)
        ensures
            r@ == self@.device_name,
    {
        match self.msg {
            Some(m) => m.device_name.as_str(),
            None => {
                proof {
                    reveal_strlit("");
                }
                ""
            },
        }
    }

    pub fn device_type(self) -> (r: DeviceType)
        ensures
            r == self@.device_type,
    {
        match self.msg {
            Some(m) => m.device_type,
            None => DeviceType(0),
        }
    }

    pub fn capabilities(self) -> (r: &'msg [DeviceCapability])
        ensures
            r@ == self@.capabilities,
    {
        match self.msg {
            Some(m) => m.capabilities.as_slice(),
            None => {
                &[]
            },
        }
    }

    pub fn version(self) -> (r: &'msg str)
        ensures
            r@ == self@.version,
    {
        match self.msg {
            Some(m) => m.version.as_str(),
            None => {
                proof {
                    reveal_strlit("");
                }
                ""
            },
        }
    }

    pub fn timestamp(self) -> (r: u64)
        ensures
            r == self@.timestamp,
    {
        match self.msg {
            Some(m) => m.timestamp,
            None => 0,
        }
    }

    pub fn public_key(self) -> (r: &'msg [u8])
        ensures
            r@ == self@.public_key,
    {
        match self.msg {
            Some(m) => m.public_key.as_slice(),
            None => {
                &[]
            },
        }
    }

    pub fn metadata(self) -> (r: MetadataView<'msg>)
        ensures
            r@ == self@.metadata,
    {
        match self.msg {
            Some(m) => MetadataView::new(&m.metadata),
            None => MetadataView::default(),
        }
    }
}

impl<'msg> Default for DeviceBroadcastView<'msg> {
    fn default() -> (r: Self)
        ensures
            r@ == DeviceBroadcastModel::empty(),
    {
        DeviceBroadcastView { msg: None }
    }
}

/// Write access to a `DeviceBroadcast` held elsewhere.
pub struct DeviceBroadcastMut<'msg> {
    /// The message written through this handle.
    pub msg: &'msg mut DeviceBroadcast,
}

impl<'msg> View for DeviceBroadcastMut<'msg> {
    type V = DeviceBroadcastModel;

    open spec fn view(&self) -> DeviceBroadcastModel {
        (*self.msg)@
    }
}

impl<'msg> DeviceBroadcastMut<'msg> {
    pub fn new(msg: &'msg mut DeviceBroadcast) -> (r: Self)
        ensures
            r@ == old(msg)@,
            *final(msg) == *final(r.msg),
    {
        DeviceBroadcastMut { msg }
    }

    /// An owned copy of the message.
    pub fn to_owned(&self) -> (r: DeviceBroadcast)
        ensures
            r@ == self@,
    {
        self.msg.clone()
    }

    pub fn as_view(&self) -> (r: DeviceBroadcastView<'_>)
        ensures
            r@ == self@,
    {
        DeviceBroadcastView::new(self.msg)
    }

    /// The wire form, refused when it is longer than `i32::MAX` bytes. The
    /// message is well formed, so the wire form reads back as the message.
    pub fn serialize(&self) -> (r: Result<Vec<u8>, protobuf::SerializeError>)
        ensures
            match r {
                Ok(bytes) => bytes@ == self@.encode() && self@.encode().len() <= 0x7fff_ffff,
                Err(_) => self@.encode().len() > 0x7fff_ffff,
            },
            self@.well_formed(),
            self@.encode().len() <= size_limit() ==> merge_message::<DeviceBroadcast>(
                DeviceBroadcastModel::empty(),
                self@.encode(),
                group_depth_limit(),
            ) == Some(self@),
    {
        self.msg.serialize()
    }

    /// Resets every field to its default.
    pub fn clear(&mut self)
        ensures
            final(self)@ == DeviceBroadcastModel::empty(),
            *final(final(self).msg) == *final(old(self).msg),
    {
        self.msg.clear();
    }

    /// Replaces the message by the one `data` encodes.
    pub fn clear_and_parse(&mut self, data: &[u8]) -> (r: Result<(), protobuf::ParseError>)
        ensures
            match merge_message::<DeviceBroadcast>(DeviceBroadcastModel::empty(), data@, group_depth_limit()) {
                Some(m) => r is Ok && final(self)@ == m && m.well_formed(),
                None => r is Err,
            },
            *final(final(self).msg) == *final(old(self).msg),
    {
        self.msg.clear_and_parse(data)
    }

    /// Replaces the message by the one `data` encodes.
    pub fn clear_and_parse_dont_enforce_required(&mut self, data: &[u8]) -> (r: Result<(), protobuf::ParseError>)
        ensures
            match merge_message::<DeviceBroadcast>(DeviceBroadcastModel::empty(), data@, group_depth_limit()) {
                Some(m) => r is Ok && final(self)@ == m && m.well_formed(),
                None => r is Err,
            },
            *final(final(self).msg) == *final(old(self).msg),
    {
        self.msg.clear_and_parse_dont_enforce_required(data)
    }

    /// Makes the message a copy of `src`.
    pub fn copy_from(&mut self, src: DeviceBroadcastView<'_>)
        ensures
            final(self)@ == src@,
            *final(final(self).msg) == *final(old(self).msg),
    {
        self.msg.copy_from(src);
    }

    /// Merges `src` into the message.
    pub fn merge_from(&mut self, src: DeviceBroadcastView<'_>)
        ensures
            final(self)@ == old(self)@.merge(src@),
            *final(final(self).msg) == *final(old(self).msg),
    {
        self.msg.merge_from(src);
    }

    pub fn device_id(&self) -> (r: &str)
        ensures
            r@ == self@.device_id,
    {
        self.msg.device_id()
    }

    pub fn set_device_id(&mut self, val: &str)
        ensures
            final(self)@ == (DeviceBroadcastModel { device_id: val@, ..old(self)@ }),
            *final(final(self).msg) == *final(old(self).msg),
    {
        self.msg.set_device_id(val);
    }

    pub fn device_name(&self) -> (r: &str)
        ensures
            r@ == self@.device_name,
    {
        self.msg.device_name()
    }

    pub fn set_device_name(&mut self, val: &str)
        ensures
            final(self)@ == (DeviceBroadcastModel { device_name: val@, ..old(self)@ }),
            *final(final(self).msg) == *final(old(self).msg),
    {
        self.msg.set_device_name(val);
    }

    pub fn device_type(&self) -> (r: DeviceType)
        ensures
            r == self@.device_type,
    {
        self.msg.device_type()
    }

    pub fn set_device_type(&mut self, val: DeviceType)
        ensures
            final(self)@ == (DeviceBroadcastModel { device_type: val, ..old(self)@ }),
            *final(final(self).msg) == *final(old(self).msg),
    {
        self.msg.set_device_type(val);
    }

    pub fn capabilities(&self) -> (r: &[DeviceCapability])
        ensures
            r@ == self@.capabilities,
    {
        self.msg.capabilities()
    }

    pub fn capabilities_mut(&mut self) -> (r: &mut Vec<DeviceCapability>)
        ensures
            (*r)@ == old(self)@.capabilities,
            final(self)@ == (DeviceBroadcastModel { capabilities: (*final(r))@, ..old(self)@ }),
            *final(final(self).msg) == *final(old(self).msg),
    {
        self.msg.capabilities_mut()
    }

    pub fn set_capabilities(&mut self, src: Vec<DeviceCapability>)
        ensures
            final(self)@ == (DeviceBroadcastModel { capabilities: src@, ..old(self)@ }),
            *final(final(self).msg) == *final(old(self).msg),
    {
        self.msg.set_capabilities(src);
    }

    pub fn version(&self) -> (r: &str)
        ensures
            r@ == self@.version,
    {
        self.msg.version()
    }

    pub fn set_version(&mut self, val: &str)
        ensures
            final(self)@ == (DeviceBroadcastModel { version: val@, ..old(self)@ }),
            *final(final(self).msg) == *final(old(self).msg),
    {
        self.msg.set_version(val);
    }

    pub fn timestamp(&self) -> (r: u64)
        ensures
            r == self@.timestamp,
    {
        self.msg.timestamp()
    }

    pub fn set_timestamp(&mut self, val: u64)
        ensures
            final(self)@ == (DeviceBroadcastModel { timestamp: val, ..old(self)@ }),
            *final(final(self).msg) == *final(old(self).msg),
    {
        self.msg.set_timestamp(val);
    }

    pub fn public_key(&self) -> (r: &[u8])
        ensures
            r@ == self@.public_key,
    {
        self.msg.public_key()
    }

    pub fn set_public_key(&mut self, val: &[u8])
        ensures
            final(self)@ == (DeviceBroadcastModel { public_key: val@, ..old(self)@ }),
            *final(final(self).msg) == *final(old(self).msg),
    {
        self.msg.set_public_key(val);
    }

    pub fn metadata(&self) -> (r: &MetadataMap)
        ensures
            r@ == self@.metadata,
    {
        self.msg.metadata()
    }

    pub fn metadata_mut(&mut self) -> (r: &mut MetadataMap)
        ensures
            (*r)@ == old(self)@.metadata,
            final(self)@ == (DeviceBroadcastModel { metadata: (*final(r))@, ..old(self)@ }),
            *final(final(self).msg) == *final(old(self).msg),
    {
        self.msg.metadata_mut()
    }

    pub fn set_metadata(&mut self, src: MetadataMap)
        ensures
            final(self)@ == (DeviceBroadcastModel { metadata: src@, ..old(self)@ }),
            *final(final(self).msg) == *final(old(self).msg),
    {
        self.msg.set_metadata(src);
    }
}

/// The content of a `ScanRequest`.
pub struct ScanRequestModel {
    pub timeout_seconds: u32,
    pub filter_types: Seq<DeviceType>,
    pub required_capabilities: Seq<DeviceCapability>,
    /// The fields read but not understood, as they came, in order.
    pub unknown: Seq<u8>,
}

impl ScanRequestModel {
    /// The message with every field at its default.
    pub open spec fn empty() -> Self {
        ScanRequestModel {
            timeout_seconds: 0,
            filter_types: Seq::empty(),
            required_capabilities: Seq::empty(),
            unknown: Seq::empty(),
        }
    }

    /// The wire form: fields in number order, defaults and absent
    /// sub-messages left out, then the unknown fields as they came.
    #[verifier::opaque]
    pub open spec fn encode(self) -> Seq<u8> {
        varint_field(1, self.timeout_seconds as u64)
            + packed_field(2, self.filter_types.map_values(|e: DeviceType| e.0))
            + packed_field(3, self.required_capabilities.map_values(|e: DeviceCapability| e.0))
            + self.unknown
    }

    /// Whether a field is kept, as it came, among the unknown fields: its
    /// number is not one of this message's, or it comes with another wire
    /// type than its field is written with.
    pub open spec fn keeps_unknown(field: nat, value: WireValue) -> bool {
        if field == 1 {
            !(value is Varint)
        } else if field == 2 {
            !(value is Varint || value is Delimited)
        } else if field == 3 {
            !(value is Varint || value is Delimited)
        } else {
            true
        }
    }

    /// `keeps_unknown` as a function.
    pub open spec fn keeps() -> spec_fn(nat, WireValue) -> bool {
        |field: nat, value: WireValue| ScanRequestModel::keeps_unknown(field, value)
    }

    /// How one field of the wire form changes the message; `raw` is the
    /// field as it came. `None` when the field's content is malformed.
    #[verifier::opaque]
    pub open spec fn apply(self, field: nat, value: WireValue, raw: Seq<u8>, depth: nat) -> Option<Self> {
        if Self::keeps_unknown(field, value) {
            Some(ScanRequestModel { unknown: self.unknown + raw, ..self })
        } else if field == 1 {
            match value {
                WireValue::Varint(v) => Some(ScanRequestModel { timeout_seconds: wire_u32(v), ..self }),
                _ => Some(self),
            }
        } else if field == 2 {
            match value {
                WireValue::Varint(v) => Some(ScanRequestModel { filter_types: self.filter_types.push(DeviceType(wire_i32(v))), ..self }),
                WireValue::Delimited(b) => match unpack(b) {
                    Some(values) => Some(ScanRequestModel { filter_types: self.filter_types + values.map_values(|x: i32| DeviceType(x)), ..self }),
                    None => None,
                },
                _ => Some(self),
            }
        } else if field == 3 {
            match value {
                WireValue::Varint(v) => Some(ScanRequestModel { required_capabilities: self.required_capabilities.push(DeviceCapability(wire_i32(v))), ..self }),
                WireValue::Delimited(b) => match unpack(b) {
                    Some(values) => Some(ScanRequestModel { required_capabilities: self.required_capabilities + values.map_values(|x: i32| DeviceCapability(x)), ..self }),
                    None => None,
                },
                _ => Some(self),
            }
        } else {
            Some(self)
        }
    }

    /// `other` merged into this message, as protobuf merges: a scalar, string
    /// or bytes field set in `other` replaces the one here, repeated fields
    /// are appended, sub-messages are merged, map entries inserted and
    /// unknown fields appended.
    #[verifier::opaque]
    pub open spec fn merge(self, other: Self) -> Self {
        ScanRequestModel {
            timeout_seconds: if other.timeout_seconds != 0 { other.timeout_seconds } else { self.timeout_seconds },
            filter_types: self.filter_types + other.filter_types,
            required_capabilities: self.required_capabilities + other.required_capabilities,
            unknown: self.unknown + other.unknown,
        }
    }

    /// What writing the message out and reading it back relies on: the
    /// unknown fields are whole fields this message does not read, and
    /// the same holds of every sub-message.
    pub open spec fn well_formed(self) -> bool {
        &&& unknown_fields::<ScanRequest>(self.unknown, group_depth_limit())
    }

    /// What reading the wire form back with `depth` levels of nesting left
    /// relies on: the message is well formed, its unknown fields read as
    /// whole fields with `depth` levels, and each sub-message reads back
    /// with one level less.
    pub open spec fn well_formed_at(self, depth: nat) -> bool {
        &&& self.well_formed()
        &&& unknown_fields::<ScanRequest>(self.unknown, depth)
    }
}

/// Reading the `timeout_seconds` field as `b` writes it merges it into `m`.
proof fn lemma_scan_request_read_timeout_seconds(m: ScanRequestModel, b: ScanRequestModel, rest: Seq<u8>, depth: nat)
    requires
        varint_field(1, b.timeout_seconds as u64).len() <= size_limit(),
    ensures
        merge_message::<ScanRequest>(m, varint_field(1, b.timeout_seconds as u64) + rest, depth) == merge_message::<ScanRequest>(
            ScanRequestModel { timeout_seconds: if b.timeout_seconds != 0 { b.timeout_seconds } else { m.timeout_seconds }, ..m },
            rest,
            depth,
        ),
{
    let next = ScanRequestModel { timeout_seconds: if b.timeout_seconds != 0 { b.timeout_seconds } else { m.timeout_seconds }, ..m };
    reveal(ScanRequestModel::apply);
    lemma_merge_varint_field::<ScanRequest>(m, 1, b.timeout_seconds as u64, rest, next, depth);
}

/// Reading the `filter_types` field as `b` writes it merges it into `m`.
proof fn lemma_scan_request_read_filter_types(m: ScanRequestModel, b: ScanRequestModel, rest: Seq<u8>, depth: nat)
    requires
        packed_field(2, b.filter_types.map_values(|e: DeviceType| e.0)).len() <= size_limit(),
    ensures
        merge_message::<ScanRequest>(m, packed_field(2, b.filter_types.map_values(|e: DeviceType| e.0)) + rest, depth) == merge_message::<ScanRequest>(
            ScanRequestModel { filter_types: m.filter_types + b.filter_types, ..m },
            rest,
            depth,
        ),
{
    let next = ScanRequestModel { filter_types: m.filter_types + b.filter_types, ..m };
    reveal(ScanRequestModel::apply);
    if b.filter_types.len() > 0 {
        let values = b.filter_types.map_values(|e: DeviceType| e.0);
        lemma_unpack_packed(values);
        assert(m.filter_types + values.map_values(|x: i32| DeviceType(x)) =~= m.filter_types + b.filter_types);
        lemma_merge_delimited::<ScanRequest>(m, 2, packed(values), rest, next, depth);
    } else {
        assert(packed_field(2, b.filter_types.map_values(|e: DeviceType| e.0)) + rest =~= rest);
        assert(m.filter_types =~= m.filter_types + b.filter_types);
    }
}

/// Reading the `required_capabilities` field as `b` writes it merges it into `m`.
proof fn lemma_scan_request_read_required_capabilities(m: ScanRequestModel, b: ScanRequestModel, rest: Seq<u8>, depth: nat)
    requires
        packed_field(3, b.required_capabilities.map_values(|e: DeviceCapability| e.0)).len() <= size_limit(),
    ensures
        merge_message::<ScanRequest>(m, packed_field(3, b.required_capabilities.map_values(|e: DeviceCapability| e.0)) + rest, depth) == merge_message::<ScanRequest>(
            ScanRequestModel { required_capabilities: m.required_capabilities + b.required_capabilities, ..m },
            rest,
            depth,
        ),
{
    let next = ScanRequestModel { required_capabilities: m.required_capabilities + b.required_capabilities, ..m };
    reveal(ScanRequestModel::apply);
    if b.required_capabilities.len() > 0 {
        let values = b.required_capabilities.map_values(|e: DeviceCapability| e.0);
        lemma_unpack_packed(values);
        assert(m.required_capabilities + values.map_values(|x: i32| DeviceCapability(x)) =~= m.required_capabilities + b.required_capabilities);
        lemma_merge_delimited::<ScanRequest>(m, 3, packed(values), rest, next, depth);
    } else {
        assert(packed_field(3, b.required_capabilities.map_values(|e: DeviceCapability| e.0)) + rest =~= rest);
        assert(m.required_capabilities =~= m.required_capabilities + b.required_capabilities);
    }
}

/// Reading the unknown fields as `b` writes them adds them to those of `m`.
proof fn lemma_scan_request_read_unknown(m: ScanRequestModel, b: ScanRequestModel, rest: Seq<u8>, depth: nat)
    requires
        b.unknown.len() <= size_limit(),
        b.well_formed_at(depth),
    ensures
        merge_message::<ScanRequest>(m, b.unknown + rest, depth) == merge_message::<ScanRequest>(
            ScanRequestModel { unknown: m.unknown + b.unknown, ..m },
            rest,
            depth,
        ),
{
    lemma_merge_unknown::<ScanRequest>(m, b.unknown, rest, depth);
}

/// Reading the wire form of `b` into `a`, with `depth` levels of nesting left,
/// gives `b` merged into `a`.
pub proof fn lemma_scan_request_merge_wire(a: ScanRequestModel, b: ScanRequestModel, depth: nat)
    requires
        b.encode().len() <= size_limit(),
        b.well_formed_at(depth),
    ensures
        merge_message::<ScanRequest>(a, b.encode(), depth) == Some(a.merge(b)),
{
    let c1 = varint_field(1, b.timeout_seconds as u64);
    let c2 = packed_field(2, b.filter_types.map_values(|e: DeviceType| e.0));
    let c3 = packed_field(3, b.required_capabilities.map_values(|e: DeviceCapability| e.0));
    let c4 = b.unknown;
    assert(b.encode() == c1 + c2 + c3 + c4) by {
        reveal(ScanRequestModel::encode);
    }
    let m0 = a;
    let m1 = ScanRequestModel { timeout_seconds: if b.timeout_seconds != 0 { b.timeout_seconds } else { m0.timeout_seconds }, ..m0 };
    lemma_scan_request_read_timeout_seconds(m0, b, Seq::empty(), depth);
    assert(c1 + Seq::empty() =~= c1);
    lemma_merge_nothing::<ScanRequest>(m1, depth);
    let m2 = ScanRequestModel { filter_types: m1.filter_types + b.filter_types, ..m1 };
    lemma_scan_request_read_filter_types(m1, b, Seq::empty(), depth);
    assert(c2 + Seq::empty() =~= c2);
    lemma_merge_nothing::<ScanRequest>(m2, depth);
    lemma_merge_concat::<ScanRequest>(a, c1, c2, depth);
    let m3 = ScanRequestModel { required_capabilities: m2.required_capabilities + b.required_capabilities, ..m2 };
    lemma_scan_request_read_required_capabilities(m2, b, Seq::empty(), depth);
    assert(c3 + Seq::empty() =~= c3);
    lemma_merge_nothing::<ScanRequest>(m3, depth);
    lemma_merge_concat::<ScanRequest>(a, c1 + c2, c3, depth);
    let m4 = ScanRequestModel { unknown: m3.unknown + b.unknown, ..m3 };
    lemma_scan_request_read_unknown(m3, b, Seq::empty(), depth);
    assert(c4 + Seq::empty() =~= c4);
    lemma_merge_nothing::<ScanRequest>(m4, depth);
    lemma_merge_concat::<ScanRequest>(a, c1 + c2 + c3, c4, depth);
    assert(m4 == a.merge(b)) by {
        reveal(ScanRequestModel::merge);
    }
}

/// Merging the empty message changes nothing.
pub proof fn lemma_scan_request_merge_empty(a: ScanRequestModel)
    ensures
        a.merge(ScanRequestModel::empty()) == a,
{
    reveal(ScanRequestModel::merge);
    assert(a.filter_types + Seq::empty() =~= a.filter_types);
    assert(a.required_capabilities + Seq::empty() =~= a.required_capabilities);
    assert(a.unknown + Seq::empty() =~= a.unknown);
    assert(a.merge(ScanRequestModel::empty()) =~= a);
}

/// Merging a message into the empty one gives that message.
pub proof fn lemma_scan_request_empty_merge(b: ScanRequestModel)
    ensures
        ScanRequestModel::empty().merge(b) == b,
{
    reveal(ScanRequestModel::merge);
    assert(Seq::empty() + b.filter_types =~= b.filter_types);
    assert(Seq::empty() + b.required_capabilities =~= b.required_capabilities);
    assert(Seq::empty() + b.unknown =~= b.unknown);
    assert(ScanRequestModel::empty().merge(b) =~= b);
}

/// Writing a message out and reading it back, with `depth` levels of
/// nesting left (`group_depth_limit()` for a message read on its own),
/// gives the same message.
pub proof fn lemma_scan_request_roundtrip(m: ScanRequestModel, depth: nat)
    requires
        m.encode().len() <= size_limit(),
        m.well_formed_at(depth),
    ensures
        merge_message::<ScanRequest>(ScanRequestModel::empty(), m.encode(), depth) == Some(m),
{
    lemma_scan_request_merge_wire(ScanRequestModel::empty(), m, depth);
    lemma_scan_request_empty_merge(m);
}

/// Reading two encoded messages written one after the other, with `depth`
/// levels of nesting left, gives the second merged into the first.
pub proof fn lemma_scan_request_concat(a: ScanRequestModel, b: ScanRequestModel, depth: nat)
    requires
        a.encode().len() <= size_limit(),
        b.encode().len() <= size_limit(),
        a.well_formed_at(depth),
        b.well_formed_at(depth),
    ensures
        merge_message::<ScanRequest>(ScanRequestModel::empty(), a.encode() + b.encode(), depth) == Some(a.merge(b)),
{
    lemma_scan_request_roundtrip(a, depth);
    lemma_merge_concat::<ScanRequest>(ScanRequestModel::empty(), a.encode(), b.encode(), depth);
    lemma_scan_request_merge_wire(a, b, depth);
}

/// Merging two well-formed messages gives a well-formed message.
pub proof fn lemma_scan_request_merge_well_formed(a: ScanRequestModel, b: ScanRequestModel)
    requires
        a.well_formed(),
        b.well_formed(),
    ensures
        a.merge(b).well_formed(),
{
    reveal(ScanRequestModel::merge);
    lemma_unknown_fields_concat::<ScanRequest>(a.unknown, b.unknown, group_depth_limit());
}

/// Reading one whole field into a well-formed message keeps it well formed.
proof fn lemma_scan_request_apply_well_formed(m: ScanRequestModel, field: nat, value: WireValue, raw: Seq<u8>, depth: nat)
    requires
        m.well_formed(),
        depth <= group_depth_limit(),
        decode_field(raw, depth) == Some((field, value, raw.len())),
        m.apply(field, value, raw, depth) is Some,
    ensures
        m.apply(field, value, raw, depth)->0.well_formed(),
{
    reveal(ScanRequestModel::apply);
    if ScanRequestModel::keeps_unknown(field, value) {
        lemma_decode_field_deeper(raw, depth, group_depth_limit());
        lemma_unknown_field::<ScanRequest>(raw, field, value, group_depth_limit());
        lemma_unknown_fields_concat::<ScanRequest>(m.unknown, raw, group_depth_limit());
    }
}

/// Reading whole fields into a well-formed message, with at most
/// `group_depth_limit()` levels of nesting left, keeps it well formed.
pub proof fn lemma_scan_request_parse_well_formed(m: ScanRequestModel, s: Seq<u8>, depth: nat)
    requires
        m.well_formed(),
        depth <= group_depth_limit(),
        merge_message::<ScanRequest>(m, s, depth) is Some,
    ensures
        merge_message::<ScanRequest>(m, s, depth)->0.well_formed(),
{
    assert forall|x: ScanRequestModel, field: nat, value: WireValue, raw: Seq<u8>|
        x.well_formed() && decode_field(raw, depth) == Some((field, value, raw.len())) && #[trigger] ScanRequest::apply_wire(
            x,
            field,
            value,
            raw,
            depth,
        ) is Some implies ScanRequest::apply_wire(x, field, value, raw, depth)->0.well_formed() by {
        lemma_scan_request_apply_well_formed(x, field, value, raw, depth);
    }
    lemma_merge_preserves::<ScanRequest>(m, s, |x: ScanRequestModel| x.well_formed(), depth);
}

/// Reading `filter_types` written unpacked, one varint field per value, appends
/// every value, in order, to the list read so far.
pub proof fn lemma_scan_request_filter_types_unpacked(m: ScanRequestModel, values: Seq<i32>, rest: Seq<u8>, depth: nat)
    ensures
        merge_message::<ScanRequest>(m, unpacked(2, values) + rest, depth) == merge_message::<ScanRequest>(
            (ScanRequestModel { filter_types: m.filter_types + values.map_values(|x: i32| DeviceType(x)), ..m }),
            rest,
            depth,
        ),
    decreases values.len(),
{
    if values.len() == 0 {
        assert(unpacked(2, values) + rest =~= rest);
        assert(m.filter_types + values.map_values(|x: i32| DeviceType(x)) =~= m.filter_types);
    } else {
        let v = values[0];
        let next = ScanRequestModel { filter_types: m.filter_types.push(DeviceType(v)), ..m };
        let tail = unpacked(2, values.drop_first()) + rest;
        reveal(ScanRequestModel::apply);
        lemma_i32_wire_roundtrip(v);
        assert(unpacked(2, values) + rest =~= field_key(2, 0) + varint(i32_wire(v) as nat) + tail);
        lemma_merge_varint::<ScanRequest>(m, 2, i32_wire(v), tail, next, depth);
        lemma_scan_request_filter_types_unpacked(next, values.drop_first(), rest, depth);
        assert(next.filter_types + values.drop_first().map_values(|x: i32| DeviceType(x)) =~= m.filter_types + values.map_values(|x: i32| DeviceType(x)));
    }
}

/// `filter_types` reads the same written packed as written unpacked.
pub proof fn lemma_scan_request_filter_types_packed_as_unpacked(m: ScanRequestModel, values: Seq<i32>, rest: Seq<u8>, depth: nat)
    requires
        packed_field(2, values).len() <= size_limit(),
    ensures
        merge_message::<ScanRequest>(m, packed_field(2, values) + rest, depth) == merge_message::<ScanRequest>(
            m,
            unpacked(2, values) + rest,
            depth,
        ),
{
    lemma_scan_request_filter_types_unpacked(m, values, rest, depth);
    let next = ScanRequestModel { filter_types: m.filter_types + values.map_values(|x: i32| DeviceType(x)), ..m };
    if values.len() == 0 {
        assert(packed_field(2, values) + rest =~= rest);
        assert(m.filter_types + values.map_values(|x: i32| DeviceType(x)) =~= m.filter_types);
        assert(next =~= m);
    } else {
        reveal(ScanRequestModel::apply);
        lemma_unpack_packed(values);
        lemma_merge_delimited::<ScanRequest>(m, 2, packed(values), rest, next, depth);
    }
}

/// Reading `required_capabilities` written unpacked, one varint field per value, appends
/// every value, in order, to the list read so far.
pub proof fn lemma_scan_request_required_capabilities_unpacked(m: ScanRequestModel, values: Seq<i32>, rest: Seq<u8>, depth: nat)
    ensures
        merge_message::<ScanRequest>(m, unpacked(3, values) + rest, depth) == merge_message::<ScanRequest>(
            (ScanRequestModel { required_capabilities: m.required_capabilities + values.map_values(|x: i32| DeviceCapability(x)), ..m }),
            rest,
            depth,
        ),
    decreases values.len(),
{
    if values.len() == 0 {
        assert(unpacked(3, values) + rest =~= rest);
        assert(m.required_capabilities + values.map_values(|x: i32| DeviceCapability(x)) =~= m.required_capabilities);
    } else {
        let v = values[0];
        let next = ScanRequestModel { required_capabilities: m.required_capabilities.push(DeviceCapability(v)), ..m };
        let tail = unpacked(3, values.drop_first()) + rest;
        reveal(ScanRequestModel::apply);
        lemma_i32_wire_roundtrip(v);
        assert(unpacked(3, values) + rest =~= field_key(3, 0) + varint(i32_wire(v) as nat) + tail);
        lemma_merge_varint::<ScanRequest>(m, 3, i32_wire(v), tail, next, depth);
        lemma_scan_request_required_capabilities_unpacked(next, values.drop_first(), rest, depth);
        assert(next.required_capabilities + values.drop_first().map_values(|x: i32| DeviceCapability(x)) =~= m.required_capabilities + values.map_values(|x: i32| DeviceCapability(x)));
    }
}

/// `required_capabilities` reads the same written packed as written unpacked.
pub proof fn lemma_scan_request_required_capabilities_packed_as_unpacked(m: ScanRequestModel, values: Seq<i32>, rest: Seq<u8>, depth: nat)
    requires
        packed_field(3, values).len() <= size_limit(),
    ensures
        merge_message::<ScanRequest>(m, packed_field(3, values) + rest, depth) == merge_message::<ScanRequest>(
            m,
            unpacked(3, values) + rest,
            depth,
        ),
{
    lemma_scan_request_required_capabilities_unpacked(m, values, rest, depth);
    let next = ScanRequestModel { required_capabilities: m.required_capabilities + values.map_values(|x: i32| DeviceCapability(x)), ..m };
    if values.len() == 0 {
        assert(packed_field(3, values) + rest =~= rest);
        assert(m.required_capabilities + values.map_values(|x: i32| DeviceCapability(x)) =~= m.required_capabilities);
        assert(next =~= m);
    } else {
        reveal(ScanRequestModel::apply);
        lemma_unpack_packed(values);
        lemma_merge_delimited::<ScanRequest>(m, 3, packed(values), rest, next, depth);
    }
}

/// A request to look for devices: for how long, and which kinds and capabilities.
pub struct ScanRequest {
    timeout_seconds: u32,
    filter_types: Vec<DeviceType>,
    required_capabilities: Vec<DeviceCapability>,
    unknown: ScanRequestUnknown,
}

impl View for ScanRequest {
    type V = ScanRequestModel;

    closed spec fn view(&self) -> ScanRequestModel {
        ScanRequestModel {
            timeout_seconds: self.timeout_seconds,
            filter_types: self.filter_types@,
            required_capabilities: self.required_capabilities@,
            unknown: self.unknown@,
        }
    }
}

/// The unknown fields of a `ScanRequest`: whole fields it does not read, as they
/// came, in order.
struct ScanRequestUnknown {
    bytes: Vec<u8>,
}

impl View for ScanRequestUnknown {
    type V = Seq<u8>;

    closed spec fn view(&self) -> Seq<u8> {
        if unknown_run(self.bytes@, ScanRequestModel::keeps(), group_depth_limit()) {
            self.bytes@
        } else {
            Seq::empty()
        }
    }
}

impl ScanRequestUnknown {
    #[verifier::type_invariant]
    closed spec fn whole(self) -> bool {
        unknown_run(self.bytes@, ScanRequestModel::keeps(), group_depth_limit())
    }

    fn new() -> (r: Self)
        ensures
            r@ == Seq::<u8>::empty(),
    {
        proof {
            lemma_unknown_run_empty(ScanRequestModel::keeps(), group_depth_limit());
        }
        ScanRequestUnknown { bytes: Vec::new() }
    }

    /// Adds one whole field that the message does not read.
    fn push_field(&mut self, raw: &[u8], Ghost(field): Ghost<nat>, Ghost(value): Ghost<WireValue>)
        requires
            decode_field(raw@, group_depth_limit()) == Some((field, value, raw@.len())),
            ScanRequestModel::keeps_unknown(field, value),
        ensures
            final(self)@ == old(self)@ + raw@,
    {
        proof {
            use_type_invariant(&*self);
            lemma_unknown_run_field(raw@, field, value, ScanRequestModel::keeps(), group_depth_limit());
            lemma_unknown_run_concat(self.bytes@, raw@, ScanRequestModel::keeps(), group_depth_limit());
            lemma_unknown_run_empty(ScanRequestModel::keeps(), group_depth_limit());
        }
        let mut bytes = Vec::new();
        std::mem::swap(&mut bytes, &mut self.bytes);
        append_bytes(&mut bytes, raw);
        self.bytes = bytes;
    }

    /// Adds the unknown fields of another message of the same kind.
    fn append(&mut self, other: &Self)
        ensures
            final(self)@ == old(self)@ + other@,
    {
        proof {
            use_type_invariant(&*self);
            use_type_invariant(other);
            lemma_unknown_run_concat(self.bytes@, other.bytes@, ScanRequestModel::keeps(), group_depth_limit());
            lemma_unknown_run_empty(ScanRequestModel::keeps(), group_depth_limit());
        }
        let mut bytes = Vec::new();
        std::mem::swap(&mut bytes, &mut self.bytes);
        append_bytes(&mut bytes, other.bytes.as_slice());
        self.bytes = bytes;
    }

    fn as_slice(&self) -> (r: &[u8])
        ensures
            r@ == self@,
    {
        proof {
            use_type_invariant(self);
        }
        self.bytes.as_slice()
    }

    fn copy(&self) -> (r: Self)
        ensures
            r@ == self@,
    {
        proof {
            use_type_invariant(self);
        }
        ScanRequestUnknown { bytes: copy_bytes(self.bytes.as_slice()) }
    }
}

impl WireMessage for ScanRequest {
    open spec fn apply_wire(message: ScanRequestModel, field: nat, value: WireValue, raw: Seq<u8>, depth: nat) -> Option<ScanRequestModel> {
        message.apply(field, value, raw, depth)
    }

    open spec fn keeps_unknown(field: nat, value: WireValue) -> bool {
        ScanRequestModel::keeps_unknown(field, value)
    }

    open spec fn add_unknown(message: ScanRequestModel, raw: Seq<u8>) -> ScanRequestModel {
        ScanRequestModel { unknown: message.unknown + raw, ..message }
    }

    proof fn lemma_apply_unknown(message: ScanRequestModel, field: nat, value: WireValue, raw: Seq<u8>, depth: nat) {
        reveal(ScanRequestModel::apply);
    }

    proof fn lemma_add_unknown(message: ScanRequestModel, a: Seq<u8>, b: Seq<u8>) {
        assert(message.unknown + a + b =~= message.unknown + (a + b));
        assert(message.unknown + Seq::<u8>::empty() =~= message.unknown);
    }

    fn apply_field(
        &mut self,
        data: &[u8],
        field: u32,
        value: FieldValue,
        start: usize,
        end: usize,
        depth: u32,
    ) -> (ok: bool) {
        proof {
            reveal(ScanRequestModel::apply);
        }
        if field == 1 {
            if let FieldValue::Varint(v) = value {
                self.timeout_seconds = to_u32(v);
                return true;
            }
        } else if field == 2 {
            match value {
                FieldValue::Varint(v) => {
                    self.filter_types.push(DeviceType(to_i32(v)));
                    return true;
                },
                FieldValue::Delimited(from, to) => match read_packed(&data[from..to]) {
                    Some(values) => {
                        DeviceType::extend_from_values(&mut self.filter_types, values.as_slice());
                        return true;
                    },
                    None => return false,
                },
                _ => {},
            }
        } else if field == 3 {
            match value {
                FieldValue::Varint(v) => {
                    self.required_capabilities.push(DeviceCapability(to_i32(v)));
                    return true;
                },
                FieldValue::Delimited(from, to) => match read_packed(&data[from..to]) {
                    Some(values) => {
                        DeviceCapability::extend_from_values(&mut self.required_capabilities, values.as_slice());
                        return true;
                    },
                    None => return false,
                },
                _ => {},
            }
        }
        proof {
            lemma_decode_field_deeper(data@.subrange(start as int, end as int), depth as nat, group_depth_limit());
        }
        self.unknown.push_field(&data[start..end], Ghost(field as nat), Ghost(value.wire(data@)));
        true
    }
}

/// The content of every `ScanRequest` is well formed.
pub proof fn lemma_scan_request_well_formed(m: ScanRequest)
    ensures
        m@.well_formed(),
{
    lemma_unknown_run_fields::<ScanRequest>(m.unknown.bytes@, ScanRequestModel::keeps(), group_depth_limit());
}

impl ScanRequest {
    /// A message with every field at its default.
    pub fn new() -> (r: Self)
        ensures
            r@ == ScanRequestModel::empty(),
    {
        let r = ScanRequest {
            timeout_seconds: 0,
            filter_types: Vec::new(),
            required_capabilities: Vec::new(),
            unknown: ScanRequestUnknown::new(),
        };
        r
    }

    /// Reads a message from its wire form.
    pub fn parse(data: &[u8]) -> (r: Result<Self, protobuf::ParseError>)
        ensures
            match merge_message::<ScanRequest>(ScanRequestModel::empty(), data@, group_depth_limit()) {
                Some(m) => r matches Ok(msg) && msg@ == m && m.well_formed(),
                None => r is Err,
            },
    {
        proof {
            if merge_message::<ScanRequest>(ScanRequestModel::empty(), data@, group_depth_limit()) is Some {
                lemma_scan_request_parse_well_formed(ScanRequestModel::empty(), data@, group_depth_limit());
            }
        }
        let mut msg = Self::new();
        if merge_bytes(&mut msg, data, 100) {
            Ok(msg)
        } else {
            Err(parse_error())
        }
    }

    /// Same as `parse`: the message has no required fields.
    pub fn parse_dont_enforce_required(data: &[u8]) -> (r: Result<Self, protobuf::ParseError>)
        ensures
            match merge_message::<ScanRequest>(ScanRequestModel::empty(), data@, group_depth_limit()) {
                Some(m) => r matches Ok(msg) && msg@ == m && m.well_formed(),
                None => r is Err,
            },
    {
        Self::parse(data)
    }

    /// Resets every field to its default.
    pub fn clear(&mut self)
        ensures
            final(self)@ == ScanRequestModel::empty(),
    {
        *self = ScanRequest::new();
    }

    /// Replaces the message by the one `data` encodes; on an error what the
    /// message then holds is unspecified.
    pub fn clear_and_parse(&mut self, data: &[u8]) -> (r: Result<(), protobuf::ParseError>)
        ensures
            match merge_message::<ScanRequest>(ScanRequestModel::empty(), data@, group_depth_limit()) {
                Some(m) => r is Ok && final(self)@ == m && m.well_formed(),
                None => r is Err,
            },
    {
        proof {
            if merge_message::<ScanRequest>(ScanRequestModel::empty(), data@, group_depth_limit()) is Some {
                lemma_scan_request_parse_well_formed(ScanRequestModel::empty(), data@, group_depth_limit());
            }
        }
        *self = ScanRequest::new();
        if merge_bytes(self, data, 100) {
            Ok(())
        } else {
            Err(parse_error())
        }
    }

    /// Same as `clear_and_parse`: the message has no required fields; on an error what the
    /// message then holds is unspecified.
    pub fn clear_and_parse_dont_enforce_required(&mut self, data: &[u8]) -> (r: Result<(), protobuf::ParseError>)
        ensures
            match merge_message::<ScanRequest>(ScanRequestModel::empty(), data@, group_depth_limit()) {
                Some(m) => r is Ok && final(self)@ == m && m.well_formed(),
                None => r is Err,
            },
    {
        self.clear_and_parse(data)
    }

    /// Makes this message a copy of `src`.
    pub fn copy_from(&mut self, src: ScanRequestView<'_>)
        ensures
            final(self)@ == src@,
    {
        *self = src.to_owned();
    }

    /// Moves the content of `src` here, leaving `src` empty.
    pub fn take_from(&mut self, src: &mut ScanRequest)
        ensures
            final(self)@ == old(src)@,
            final(src)@ == ScanRequestModel::empty(),
    {
        let mut taken = ScanRequest::new();
        std::mem::swap(&mut taken, src);
        *self = taken;
    }

    /// Merges `src` into this message (see `merge` on the model).
    pub fn merge_from(&mut self, src: ScanRequestView<'_>)
        ensures
            final(self)@ == old(self)@.merge(src@),
    {
        match src.msg {
            Some(other) => self.merge_fields_from(other),
            None => {
                proof {
                    lemma_scan_request_merge_empty(self@);
                }
            },
        }
    }

    fn merge_fields_from(&mut self, other: &ScanRequest)
        ensures
            final(self)@ == old(self)@.merge(other@),
    {
        proof {
            reveal(ScanRequestModel::merge);
        }
        let ghost start = self@;
        if other.timeout_seconds != 0 {
            self.timeout_seconds = other.timeout_seconds;
        }
        let mut extra = copy_items(other.filter_types.as_slice());
        let ghost before = self.filter_types@;
        self.filter_types.append(&mut extra);
        assert(self.filter_types@ =~= before + other.filter_types@);
        let mut extra = copy_items(other.required_capabilities.as_slice());
        let ghost before = self.required_capabilities@;
        self.required_capabilities.append(&mut extra);
        assert(self.required_capabilities@ =~= before + other.required_capabilities@);
        self.unknown.append(&other.unknown);
        assert(self@ =~= start.merge(other@));
    }

    /// Appends the wire form to `buf`.
    pub fn write_to(&self, buf: &mut Vec<u8>)
        ensures
            final(buf)@ == old(buf)@ + self@.encode(),
    {
        let ghost start = buf@;
        let ghost c1 = varint_field(1, self@.timeout_seconds as u64);
        let ghost c2 = packed_field(2, self@.filter_types.map_values(|e: DeviceType| e.0));
        let ghost c3 = packed_field(3, self@.required_capabilities.map_values(|e: DeviceCapability| e.0));
        let ghost c4 = self@.unknown;
        write_varint_field(buf, 1, self.timeout_seconds as u64);
        let ghost mut written = c1;
        assert(buf@ == start + written);
        let filter_types_values = DeviceType::values_of(self.filter_types.as_slice());
        write_packed_field(buf, 2, filter_types_values.as_slice());
        proof {
            lemma_concat_associative(start, written, c2);
            written = written + c2;
        }
        assert(buf@ == start + written);
        let required_capabilities_values = DeviceCapability::values_of(self.required_capabilities.as_slice());
        write_packed_field(buf, 3, required_capabilities_values.as_slice());
        proof {
            lemma_concat_associative(start, written, c3);
            written = written + c3;
        }
        assert(buf@ == start + written);
        append_bytes(buf, self.unknown.as_slice());
        proof {
            lemma_concat_associative(start, written, c4);
            written = written + c4;
        }
        assert(buf@ == start + written);
        assert(self@.encode() == written) by {
            assert(written == c1 + c2 + c3 + c4);
            reveal(ScanRequestModel::encode);
        }
    }

    /// The wire form, refused when it is longer than `i32::MAX` bytes. The
    /// message is well formed, so the wire form reads back as the message.
    pub fn serialize(&self) -> (r: Result<Vec<u8>, protobuf::SerializeError>)
        ensures
            match r {
                Ok(bytes) => bytes@ == self@.encode() && self@.encode().len() <= 0x7fff_ffff,
                Err(_) => self@.encode().len() > 0x7fff_ffff,
            },
            self@.well_formed(),
            self@.encode().len() <= size_limit() ==> merge_message::<ScanRequest>(
                ScanRequestModel::empty(),
                self@.encode(),
                group_depth_limit(),
            ) == Some(self@),
    {
        proof {
            lemma_scan_request_well_formed(*self);
            if self@.encode().len() <= size_limit() {
                lemma_scan_request_roundtrip(self@, group_depth_limit());
            }
        }
        let mut buf = Vec::new();
        self.write_to(&mut buf);
        assert(buf@ =~= self@.encode());
        if buf.len() > 0x7fff_ffff {
            return Err(serialize_error());
        }
        Ok(buf)
    }

    pub fn as_view(&self) -> (r: ScanRequestView<'_>)
        ensures
            r@ == self@,
    {
        ScanRequestView::new(self)
    }

    pub fn as_mut(&mut self) -> (r: ScanRequestMut<'_>)
        ensures
            r@ == old(self)@,
            *final(self) == *final(r.msg),
    {
        ScanRequestMut::new(self)
    }

    pub fn timeout_seconds(&self) -> (r: u32)
        ensures
            r == self@.timeout_seconds,
    {
        self.timeout_seconds
    }

    pub fn set_timeout_seconds(&mut self, val: u32)
        ensures
            final(self)@ == (ScanRequestModel { timeout_seconds: val, ..old(self)@ }),
    {
        self.timeout_seconds = val;
    }

    pub fn filter_types(&self) -> (r: &[DeviceType])
        ensures
            r@ == self@.filter_types,
    {
        self.filter_types.as_slice()
    }

    pub fn filter_types_mut(&mut self) -> (r: &mut Vec<DeviceType>)
        ensures
            (*r)@ == old(self)@.filter_types,
            final(self)@ == (ScanRequestModel { filter_types: (*final(r))@, ..old(self)@ }),
    {
        &mut self.filter_types
    }

    pub fn set_filter_types(&mut self, src: Vec<DeviceType>)
        ensures
            final(self)@ == (ScanRequestModel { filter_types: src@, ..old(self)@ }),
    {
        self.filter_types = src;
    }

    pub fn required_capabilities(&self) -> (r: &[DeviceCapability])
        ensures
            r@ == self@.required_capabilities,
    {
        self.required_capabilities.as_slice()
    }

    pub fn required_capabilities_mut(&mut self) -> (r: &mut Vec<DeviceCapability>)
        ensures
            (*r)@ == old(self)@.required_capabilities,
            final(self)@ == (ScanRequestModel { required_capabilities: (*final(r))@, ..old(self)@ }),
    {
        &mut self.required_capabilities
    }

    pub fn set_required_capabilities(&mut self, src: Vec<DeviceCapability>)
        ensures
            final(self)@ == (ScanRequestModel { required_capabilities: src@, ..old(self)@ }),
    {
        self.required_capabilities = src;
    }
}

impl Clone for ScanRequest {
    fn clone(&self) -> (r: Self)
        ensures
            r@ == self@,
    {
        let r = ScanRequest {
            timeout_seconds: self.timeout_seconds,
            filter_types: copy_items(self.filter_types.as_slice()),
            required_capabilities: copy_items(self.required_capabilities.as_slice()),
            unknown: self.unknown.copy(),
        };
        r
    }
}

impl Default for ScanRequest {
    fn default() -> (r: Self)
        ensures
            r@ == ScanRequestModel::empty(),
    {
        Self::new()
    }
}

/// Read access to a `ScanRequest`; the default view reads as the empty message.
#[derive(Clone, Copy)]
pub struct ScanRequestView<'msg> {
    msg: Option<&'msg ScanRequest>,
}

impl<'msg> View for ScanRequestView<'msg> {
    type V = ScanRequestModel;

    closed spec fn view(&self) -> ScanRequestModel {
        match self.msg {
            Some(m) => m@,
            None => ScanRequestModel::empty(),
        }
    }
}

impl<'msg> ScanRequestView<'msg> {
    pub fn new(msg: &'msg ScanRequest) -> (r: Self)
        ensures
            r@ == msg@,
    {
        ScanRequestView { msg: Some(msg) }
    }

    /// An owned copy of the message.
    pub fn to_owned(&self) -> (r: ScanRequest)
        ensures
            r@ == self@,
    {
        match self.msg {
            Some(m) => m.clone(),
            None => ScanRequest::new(),
        }
    }

    /// The wire form, refused when it is longer than `i32::MAX` bytes. The
    /// message is well formed, so the wire form reads back as the message.
    pub fn serialize(&self) -> (r: Result<Vec<u8>, protobuf::SerializeError>)
        ensures
            match r {
                Ok(bytes) => bytes@ == self@.encode() && self@.encode().len() <= 0x7fff_ffff,
                Err(_) => self@.encode().len() > 0x7fff_ffff,
            },
            self@.well_formed(),
            self@.encode().len() <= size_limit() ==> merge_message::<ScanRequest>(
                ScanRequestModel::empty(),
                self@.encode(),
                group_depth_limit(),
            ) == Some(self@),
    {
        match self.msg {
            Some(m) => m.serialize(),
            None => ScanRequest::new().serialize(),
        }
    }

    pub fn timeout_seconds(self) -> (r: u32)
        ensures
            r == self@.timeout_seconds,
    {
        match self.msg {
            Some(m) => m.timeout_seconds,
            None => 0,
        }
    }

    pub fn filter_types(self) -> (r: &'msg [DeviceType])
        ensures
            r@ == self@.filter_types,
    {
        match self.msg {
            Some(m) => m.filter_types.as_slice(),
            None => {
                &[]
            },
        }
    }

    pub fn required_capabilities(self) -> (r: &'msg [DeviceCapability])
        ensures
            r@ == self@.required_capabilities,
    {
        match self.msg {
            Some(m) => m.required_capabilities.as_slice(),
            None => {
                &[]
            },
        }
    }
}

impl<'msg> Default for ScanRequestView<'msg> {
    fn default() -> (r: Self)
        ensures
            r@ == ScanRequestModel::empty(),
    {
        ScanRequestView { msg: None }
    }
}

/// Write access to a `ScanRequest` held elsewhere.
pub struct ScanRequestMut<'msg> {
    /// The message written through this handle.
    pub msg: &'msg mut ScanRequest,
}

impl<'msg> View for ScanRequestMut<'msg> {
    type V = ScanRequestModel;

    open spec fn view(&self) -> ScanRequestModel {
        (*self.msg)@
    }
}

impl<'msg> ScanRequestMut<'msg> {
    pub fn new(msg: &'msg mut ScanRequest) -> (r: Self)
        ensures
            r@ == old(msg)@,
            *final(msg) == *final(r.msg),
    {
        ScanRequestMut { msg }
    }

    /// An owned copy of the message.
    pub fn to_owned(&self) -> (r: ScanRequest)
        ensures
            r@ == self@,
    {
        self.msg.clone()
    }

    pub fn as_view(&self) -> (r: ScanRequestView<'_>)
        ensures
            r@ == self@,
    {
        ScanRequestView::new(self.msg)
    }

    /// The wire form, refused when it is longer than `i32::MAX` bytes. The
    /// message is well formed, so the wire form reads back as the message.
    pub fn serialize(&self) -> (r: Result<Vec<u8>, protobuf::SerializeError>)
        ensures
            match r {
                Ok(bytes) => bytes@ == self@.encode() && self@.encode().len() <= 0x7fff_ffff,
                Err(_) => self@.encode().len() > 0x7fff_ffff,
            },
            self@.well_formed(),
            self@.encode().len() <= size_limit() ==> merge_message::<ScanRequest>(
                ScanRequestModel::empty(),
                self@.encode(),
                group_depth_limit(),
            ) == Some(self@),
    {
        self.msg.serialize()
    }

    /// Resets every field to its default.
    pub fn clear(&mut self)
        ensures
            final(self)@ == ScanRequestModel::empty(),
            *final(final(self).msg) == *final(old(self).msg),
    {
        self.msg.clear();
    }

    /// Replaces the message by the one `data` encodes.
    pub fn clear_and_parse(&mut self, data: &[u8]) -> (r: Result<(), protobuf::ParseError>)
        ensures
            match merge_message::<ScanRequest>(ScanRequestModel::empty(), data@, group_depth_limit()) {
                Some(m) => r is Ok && final(self)@ == m && m.well_formed(),
                None => r is Err,
            },
            *final(final(self).msg) == *final(old(self).msg),
    {
        self.msg.clear_and_parse(data)
    }

    /// Replaces the message by the one `data` encodes.
    pub fn clear_and_parse_dont_enforce_required(&mut self, data: &[u8]) -> (r: Result<(), protobuf::ParseError>)
        ensures
            match merge_message::<ScanRequest>(ScanRequestModel::empty(), data@, group_depth_limit()) {
                Some(m) => r is Ok && final(self)@ == m && m.well_formed(),
                None => r is Err,
            },
            *final(final(self).msg) == *final(old(self).msg),
    {
        self.msg.clear_and_parse_dont_enforce_required(data)
    }

    /// Makes the message a copy of `src`.
    pub fn copy_from(&mut self, src: ScanRequestView<'_>)
        ensures
            final(self)@ == src@,
            *final(final(self).msg) == *final(old(self).msg),
    {
        self.msg.copy_from(src);
    }

    /// Merges `src` into the message.
    pub fn merge_from(&mut self, src: ScanRequestView<'_>)
        ensures
            final(self)@ == old(self)@.merge(src@),
            *final(final(self).msg) == *final(old(self).msg),
    {
        self.msg.merge_from(src);
    }

    pub fn timeout_seconds(&self) -> (r: u32)
        ensures
            r == self@.timeout_seconds,
    {
        self.msg.timeout_seconds()
    }

    pub fn set_timeout_seconds(&mut self, val: u32)
        ensures
            final(self)@ == (ScanRequestModel { timeout_seconds: val, ..old(self)@ }),
            *final(final(self).msg) == *final(old(self).msg),
    {
        self.msg.set_timeout_seconds(val);
    }

    pub fn filter_types(&self) -> (r: &[DeviceType])
        ensures
            r@ == self@.filter_types,
    {
        self.msg.filter_types()
    }

    pub fn filter_types_mut(&mut self) -> (r: &mut Vec<DeviceType>)
        ensures
            (*r)@ == old(self)@.filter_types,
            final(self)@ == (ScanRequestModel { filter_types: (*final(r))@, ..old(self)@ }),
            *final(final(self).msg) == *final(old(self).msg),
    {
        self.msg.filter_types_mut()
    }

    pub fn set_filter_types(&mut self, src: Vec<DeviceType>)
        ensures
            final(self)@ == (ScanRequestModel { filter_types: src@, ..old(self)@ }),
            *final(final(self).msg) == *final(old(self).msg),
    {
        self.msg.set_filter_types(src);
    }

    pub fn required_capabilities(&self) -> (r: &[DeviceCapability])
        ensures
            r@ == self@.required_capabilities,
    {
        self.msg.required_capabilities()
    }

    pub fn required_capabilities_mut(&mut self) -> (r: &mut Vec<DeviceCapability>)
        ensures
            (*r)@ == old(self)@.required_capabilities,
            final(self)@ == (ScanRequestModel { required_capabilities: (*final(r))@, ..old(self)@ }),
            *final(final(self).msg) == *final(old(self).msg),
    {
        self.msg.required_capabilities_mut()
    }

    pub fn set_required_capabilities(&mut self, src: Vec<DeviceCapability>)
        ensures
            final(self)@ == (ScanRequestModel { required_capabilities: src@, ..old(self)@ }),
            *final(final(self).msg) == *final(old(self).msg),
    {
        self.msg.set_required_capabilities(src);
    }
}

/// The content of a `ScanResponse`.
pub struct ScanResponseModel {
    pub devices: Seq<DeviceBroadcastModel>,
    pub scan_duration_ms: u64,
    /// The fields read but not understood, as they came, in order.
    pub unknown: Seq<u8>,
}

impl ScanResponseModel {
    /// The message with every field at its default.
    pub open spec fn empty() -> Self {
        ScanResponseModel {
            devices: Seq::empty(),
            scan_duration_ms: 0,
            unknown: Seq::empty(),
        }
    }

    /// The wire form: fields in number order, defaults and absent
    /// sub-messages left out, then the unknown fields as they came.
    #[verifier::opaque]
    pub open spec fn encode(self) -> Seq<u8> {
        repeated_delimited(1, self.devices.map_values(|x: DeviceBroadcastModel| x.encode()))
            + varint_field(2, self.scan_duration_ms)
            + self.unknown
    }

    /// Whether a field is kept, as it came, among the unknown fields: its
    /// number is not one of this message's, or it comes with another wire
    /// type than its field is written with.
    pub open spec fn keeps_unknown(field: nat, value: WireValue) -> bool {
        if field == 1 {
            !(value is Delimited)
        } else if field == 2 {
            !(value is Varint)
        } else {
            true
        }
    }

    /// `keeps_unknown` as a function.
    pub open spec fn keeps() -> spec_fn(nat, WireValue) -> bool {
        |field: nat, value: WireValue| ScanResponseModel::keeps_unknown(field, value)
    }

    /// How one field of the wire form changes the message; `raw` is the
    /// field as it came. `None` when the field's content is malformed.
    #[verifier::opaque]
    pub open spec fn apply(self, field: nat, value: WireValue, raw: Seq<u8>, depth: nat) -> Option<Self> {
        if Self::keeps_unknown(field, value) {
            Some(ScanResponseModel { unknown: self.unknown + raw, ..self })
        } else if field == 1 {
            match value {
                WireValue::Delimited(b) => if depth == 0 {
                    None
                } else {
                    match merge_message::<DeviceBroadcast>(DeviceBroadcastModel::empty(), b, (depth - 1) as nat) {
                        Some(x) => Some(ScanResponseModel { devices: self.devices.push(x), ..self }),
                        None => None,
                    }
                },
                _ => Some(self),
            }
        } else if field == 2 {
            match value {
                WireValue::Varint(v) => Some(ScanResponseModel { scan_duration_ms: v, ..self }),
                _ => Some(self),
            }
        } else {
            Some(self)
        }
    }

    /// `other` merged into this message, as protobuf merges: a scalar, string
    /// or bytes field set in `other` replaces the one here, repeated fields
    /// are appended, sub-messages are merged, map entries inserted and
    /// unknown fields appended.
    #[verifier::opaque]
    pub open spec fn merge(self, other: Self) -> Self {
        ScanResponseModel {
            devices: self.devices + other.devices,
            scan_duration_ms: if other.scan_duration_ms != 0 { other.scan_duration_ms } else { self.scan_duration_ms },
            unknown: self.unknown + other.unknown,
        }
    }

    /// What writing the message out and reading it back relies on: the
    /// unknown fields are whole fields this message does not read, and
    /// the same holds of every sub-message.
    pub open spec fn well_formed(self) -> bool {
        &&& unknown_fields::<ScanResponse>(self.unknown, group_depth_limit())
        &&& forall|i: int| 0 <= i < self.devices.len() ==> #[trigger] self.devices[i].well_formed()
    }

    /// What reading the wire form back with `depth` levels of nesting left
    /// relies on: the message is well formed, its unknown fields read as
    /// whole fields with `depth` levels, and each sub-message reads back
    /// with one level less.
    pub open spec fn well_formed_at(self, depth: nat) -> bool {
        &&& self.well_formed()
        &&& unknown_fields::<ScanResponse>(self.unknown, depth)
        &&& self.devices.len() > 0 ==> depth >= 1
        &&& forall|i: int|
            0 <= i < self.devices.len() ==> #[trigger] self.devices[i].well_formed_at((depth - 1) as nat)
    }
}

/// Reading the `scan_duration_ms` field as `b` writes it merges it into `m`.
proof fn lemma_scan_response_read_scan_duration_ms(m: ScanResponseModel, b: ScanResponseModel, rest: Seq<u8>, depth: nat)
    requires
        varint_field(2, b.scan_duration_ms).len() <= size_limit(),
    ensures
        merge_message::<ScanResponse>(m, varint_field(2, b.scan_duration_ms) + rest, depth) == merge_message::<ScanResponse>(
            ScanResponseModel { scan_duration_ms: if b.scan_duration_ms != 0 { b.scan_duration_ms } else { m.scan_duration_ms }, ..m },
            rest,
            depth,
        ),
{
    let next = ScanResponseModel { scan_duration_ms: if b.scan_duration_ms != 0 { b.scan_duration_ms } else { m.scan_duration_ms }, ..m };
    reveal(ScanResponseModel::apply);
    lemma_merge_varint_field::<ScanResponse>(m, 2, b.scan_duration_ms, rest, next, depth);
}

/// Reading the unknown fields as `b` writes them adds them to those of `m`.
proof fn lemma_scan_response_read_unknown(m: ScanResponseModel, b: ScanResponseModel, rest: Seq<u8>, depth: nat)
    requires
        b.unknown.len() <= size_limit(),
        b.well_formed_at(depth),
    ensures
        merge_message::<ScanResponse>(m, b.unknown + rest, depth) == merge_message::<ScanResponse>(
            ScanResponseModel { unknown: m.unknown + b.unknown, ..m },
            rest,
            depth,
        ),
{
    lemma_merge_unknown::<ScanResponse>(m, b.unknown, rest, depth);
}

/// Reading the wire form of `b` into `a`, with `depth` levels of nesting left,
/// gives `b` merged into `a`.
pub proof fn lemma_scan_response_merge_wire(a: ScanResponseModel, b: ScanResponseModel, depth: nat)
    requires
        b.encode().len() <= size_limit(),
        b.well_formed_at(depth),
    ensures
        merge_message::<ScanResponse>(a, b.encode(), depth) == Some(a.merge(b)),
{
    let c1 = repeated_delimited(1, b.devices.map_values(|x: DeviceBroadcastModel| x.encode()));
    let c2 = varint_field(2, b.scan_duration_ms);
    let c3 = b.unknown;
    assert(b.encode() == c1 + c2 + c3) by {
        reveal(ScanResponseModel::encode);
    }
    let m0 = a;
    let m1 = ScanResponseModel { devices: m0.devices + b.devices, ..m0 };
    lemma_scan_response_devices(m0, b.devices, Seq::empty(), depth);
    assert(c1 + Seq::empty() =~= c1);
    lemma_merge_nothing::<ScanResponse>(m1, depth);
    let m2 = ScanResponseModel { scan_duration_ms: if b.scan_duration_ms != 0 { b.scan_duration_ms } else { m1.scan_duration_ms }, ..m1 };
    lemma_scan_response_read_scan_duration_ms(m1, b, Seq::empty(), depth);
    assert(c2 + Seq::empty() =~= c2);
    lemma_merge_nothing::<ScanResponse>(m2, depth);
    lemma_merge_concat::<ScanResponse>(a, c1, c2, depth);
    let m3 = ScanResponseModel { unknown: m2.unknown + b.unknown, ..m2 };
    lemma_scan_response_read_unknown(m2, b, Seq::empty(), depth);
    assert(c3 + Seq::empty() =~= c3);
    lemma_merge_nothing::<ScanResponse>(m3, depth);
    lemma_merge_concat::<ScanResponse>(a, c1 + c2, c3, depth);
    assert(m3 == a.merge(b)) by {
        reveal(ScanResponseModel::merge);
    }
}

/// Merging the empty message changes nothing.
pub proof fn lemma_scan_response_merge_empty(a: ScanResponseModel)
    ensures
        a.merge(ScanResponseModel::empty()) == a,
{
    reveal(ScanResponseModel::merge);
    assert(a.devices + Seq::empty() =~= a.devices);
    assert(a.unknown + Seq::empty() =~= a.unknown);
    assert(a.merge(ScanResponseModel::empty()) =~= a);
}

/// Merging a message into the empty one gives that message.
pub proof fn lemma_scan_response_empty_merge(b: ScanResponseModel)
    ensures
        ScanResponseModel::empty().merge(b) == b,
{
    reveal(ScanResponseModel::merge);
    assert(Seq::empty() + b.devices =~= b.devices);
    assert(Seq::empty() + b.unknown =~= b.unknown);
    assert(ScanResponseModel::empty().merge(b) =~= b);
}

/// Writing a message out and reading it back, with `depth` levels of
/// nesting left (`group_depth_limit()` for a message read on its own),
/// gives the same message.
pub proof fn lemma_scan_response_roundtrip(m: ScanResponseModel, depth: nat)
    requires
        m.encode().len() <= size_limit(),
        m.well_formed_at(depth),
    ensures
        merge_message::<ScanResponse>(ScanResponseModel::empty(), m.encode(), depth) == Some(m),
{
    lemma_scan_response_merge_wire(ScanResponseModel::empty(), m, depth);
    lemma_scan_response_empty_merge(m);
}

/// Reading two encoded messages written one after the other, with `depth`
/// levels of nesting left, gives the second merged into the first.
pub proof fn lemma_scan_response_concat(a: ScanResponseModel, b: ScanResponseModel, depth: nat)
    requires
        a.encode().len() <= size_limit(),
        b.encode().len() <= size_limit(),
        a.well_formed_at(depth),
        b.well_formed_at(depth),
    ensures
        merge_message::<ScanResponse>(ScanResponseModel::empty(), a.encode() + b.encode(), depth) == Some(a.merge(b)),
{
    lemma_scan_response_roundtrip(a, depth);
    lemma_merge_concat::<ScanResponse>(ScanResponseModel::empty(), a.encode(), b.encode(), depth);
    lemma_scan_response_merge_wire(a, b, depth);
}

/// Merging two well-formed messages gives a well-formed message.
pub proof fn lemma_scan_response_merge_well_formed(a: ScanResponseModel, b: ScanResponseModel)
    requires
        a.well_formed(),
        b.well_formed(),
    ensures
        a.merge(b).well_formed(),
{
    reveal(ScanResponseModel::merge);
    lemma_unknown_fields_concat::<ScanResponse>(a.unknown, b.unknown, group_depth_limit());
    let items = a.devices + b.devices;
    assert forall|i: int| 0 <= i < items.len() implies #[trigger] items[i].well_formed() by {
        if i < a.devices.len() {
            assert(items[i] == a.devices[i]);
        } else {
            assert(items[i] == b.devices[i - a.devices.len()]);
        }
    }
}

/// Reading one whole field into a well-formed message keeps it well formed.
proof fn lemma_scan_response_apply_well_formed(m: ScanResponseModel, field: nat, value: WireValue, raw: Seq<u8>, depth: nat)
    requires
        m.well_formed(),
        depth <= group_depth_limit(),
        decode_field(raw, depth) == Some((field, value, raw.len())),
        m.apply(field, value, raw, depth) is Some,
    ensures
        m.apply(field, value, raw, depth)->0.well_formed(),
{
    reveal(ScanResponseModel::apply);
    if ScanResponseModel::keeps_unknown(field, value) {
        lemma_decode_field_deeper(raw, depth, group_depth_limit());
        lemma_unknown_field::<ScanResponse>(raw, field, value, group_depth_limit());
        lemma_unknown_fields_concat::<ScanResponse>(m.unknown, raw, group_depth_limit());
    } else if field == 1 {
        if let WireValue::Delimited(b) = value {
            lemma_device_broadcast_parse_well_formed(DeviceBroadcastModel::empty(), b, (depth - 1) as nat);
            let items = m.devices.push(merge_message::<DeviceBroadcast>(DeviceBroadcastModel::empty(), b, (depth - 1) as nat)->0);
            assert forall|i: int| 0 <= i < items.len() implies #[trigger] items[i].well_formed() by {
                if i < m.devices.len() {
                    assert(items[i] == m.devices[i]);
                }
            }
        }
    }
}

/// Reading whole fields into a well-formed message, with at most
/// `group_depth_limit()` levels of nesting left, keeps it well formed.
pub proof fn lemma_scan_response_parse_well_formed(m: ScanResponseModel, s: Seq<u8>, depth: nat)
    requires
        m.well_formed(),
        depth <= group_depth_limit(),
        merge_message::<ScanResponse>(m, s, depth) is Some,
    ensures
        merge_message::<ScanResponse>(m, s, depth)->0.well_formed(),
{
    assert forall|x: ScanResponseModel, field: nat, value: WireValue, raw: Seq<u8>|
        x.well_formed() && decode_field(raw, depth) == Some((field, value, raw.len())) && #[trigger] ScanResponse::apply_wire(
            x,
            field,
            value,
            raw,
            depth,
        ) is Some implies ScanResponse::apply_wire(x, field, value, raw, depth)->0.well_formed() by {
        lemma_scan_response_apply_well_formed(x, field, value, raw, depth);
    }
    lemma_merge_preserves::<ScanResponse>(m, s, |x: ScanResponseModel| x.well_formed(), depth);
}

/// Reading the elements of `devices` appends them, in order.
proof fn lemma_scan_response_devices(m: ScanResponseModel, items: Seq<DeviceBroadcastModel>, rest: Seq<u8>, depth: nat)
    requires
        repeated_delimited(1, items.map_values(|x: DeviceBroadcastModel| x.encode())).len() <= size_limit(),
        items.len() > 0 ==> depth >= 1,
        forall|i: int| 0 <= i < items.len() ==> #[trigger] items[i].well_formed_at((depth - 1) as nat),
    ensures
        merge_message::<ScanResponse>(m, repeated_delimited(1, items.map_values(|x: DeviceBroadcastModel| x.encode())) + rest, depth) == merge_message::<ScanResponse>(
            (ScanResponseModel { devices: m.devices + items, ..m }),
            rest,
            depth,
        ),
    decreases items.len(),
{
    reveal(ScanResponseModel::apply);
    if items.len() == 0 {
        assert(m.devices + items =~= m.devices);
        assert(repeated_delimited(1, items.map_values(|x: DeviceBroadcastModel| x.encode())) + rest =~= rest);
    } else {
        let next = ScanResponseModel { devices: m.devices.push(items[0]), ..m };
        assert(items.map_values(|x: DeviceBroadcastModel| x.encode()).drop_first() =~= items.drop_first().map_values(
            |x: DeviceBroadcastModel| x.encode(),
        ));
        lemma_device_broadcast_roundtrip(items[0], (depth - 1) as nat);
        assert(repeated_delimited(1, items.map_values(|x: DeviceBroadcastModel| x.encode())) + rest =~= delimited(1, items[0].encode()) + (repeated_delimited(1, items.drop_first().map_values(|x: DeviceBroadcastModel| x.encode())) + rest));
        lemma_merge_delimited::<ScanResponse>(m, 1, items[0].encode(), repeated_delimited(1, items.drop_first().map_values(|x: DeviceBroadcastModel| x.encode())) + rest, next, depth);
        assert forall|i: int| 0 <= i < items.drop_first().len() implies #[trigger] items.drop_first()[i].well_formed_at(
            (depth - 1) as nat,
        ) by {
            assert(items.drop_first()[i] == items[i + 1]);
        }
        lemma_scan_response_devices(next, items.drop_first(), rest, depth);
        assert(next.devices + items.drop_first() =~= m.devices + items);
    }
}

/// The devices a scan found, and how long it took.
pub struct ScanResponse {
    devices: Vec<DeviceBroadcast>,
    scan_duration_ms: u64,
    unknown: ScanResponseUnknown,
}

impl View for ScanResponse {
    type V = ScanResponseModel;

    closed spec fn view(&self) -> ScanResponseModel {
        ScanResponseModel {
            devices: self.devices@.map_values(|x: DeviceBroadcast| x@),
            scan_duration_ms: self.scan_duration_ms,
            unknown: self.unknown@,
        }
    }
}

/// The unknown fields of a `ScanResponse`: whole fields it does not read, as they
/// came, in order.
struct ScanResponseUnknown {
    bytes: Vec<u8>,
}

impl View for ScanResponseUnknown {
    type V = Seq<u8>;

    closed spec fn view(&self) -> Seq<u8> {
        if unknown_run(self.bytes@, ScanResponseModel::keeps(), group_depth_limit()) {
            self.bytes@
        } else {
            Seq::empty()
        }
    }
}

impl ScanResponseUnknown {
    #[verifier::type_invariant]
    closed spec fn whole(self) -> bool {
        unknown_run(self.bytes@, ScanResponseModel::keeps(), group_depth_limit())
    }

    fn new() -> (r: Self)
        ensures
            r@ == Seq::<u8>::empty(),
    {
        proof {
            lemma_unknown_run_empty(ScanResponseModel::keeps(), group_depth_limit());
        }
        ScanResponseUnknown { bytes: Vec::new() }
    }

    /// Adds one whole field that the message does not read.
    fn push_field(&mut self, raw: &[u8], Ghost(field): Ghost<nat>, Ghost(value): Ghost<WireValue>)
        requires
            decode_field(raw@, group_depth_limit()) == Some((field, value, raw@.len())),
            ScanResponseModel::keeps_unknown(field, value),
        ensures
            final(self)@ == old(self)@ + raw@,
    {
        proof {
            use_type_invariant(&*self);
            lemma_unknown_run_field(raw@, field, value, ScanResponseModel::keeps(), group_depth_limit());
            lemma_unknown_run_concat(self.bytes@, raw@, ScanResponseModel::keeps(), group_depth_limit());
            lemma_unknown_run_empty(ScanResponseModel::keeps(), group_depth_limit());
        }
        let mut bytes = Vec::new();
        std::mem::swap(&mut bytes, &mut self.bytes);
        append_bytes(&mut bytes, raw);
        self.bytes = bytes;
    }

    /// Adds the unknown fields of another message of the same kind.
    fn append(&mut self, other: &Self)
        ensures
            final(self)@ == old(self)@ + other@,
    {
        proof {
            use_type_invariant(&*self);
            use_type_invariant(other);
            lemma_unknown_run_concat(self.bytes@, other.bytes@, ScanResponseModel::keeps(), group_depth_limit());
            lemma_unknown_run_empty(ScanResponseModel::keeps(), group_depth_limit());
        }
        let mut bytes = Vec::new();
        std::mem::swap(&mut bytes, &mut self.bytes);
        append_bytes(&mut bytes, other.bytes.as_slice());
        self.bytes = bytes;
    }

    fn as_slice(&self) -> (r: &[u8])
        ensures
            r@ == self@,
    {
        proof {
            use_type_invariant(self);
        }
        self.bytes.as_slice()
    }

    fn copy(&self) -> (r: Self)
        ensures
            r@ == self@,
    {
        proof {
            use_type_invariant(self);
        }
        ScanResponseUnknown { bytes: copy_bytes(self.bytes.as_slice()) }
    }
}

impl WireMessage for ScanResponse {
    open spec fn apply_wire(message: ScanResponseModel, field: nat, value: WireValue, raw: Seq<u8>, depth: nat) -> Option<ScanResponseModel> {
        message.apply(field, value, raw, depth)
    }

    open spec fn keeps_unknown(field: nat, value: WireValue) -> bool {
        ScanResponseModel::keeps_unknown(field, value)
    }

    open spec fn add_unknown(message: ScanResponseModel, raw: Seq<u8>) -> ScanResponseModel {
        ScanResponseModel { unknown: message.unknown + raw, ..message }
    }

    proof fn lemma_apply_unknown(message: ScanResponseModel, field: nat, value: WireValue, raw: Seq<u8>, depth: nat) {
        reveal(ScanResponseModel::apply);
    }

    proof fn lemma_add_unknown(message: ScanResponseModel, a: Seq<u8>, b: Seq<u8>) {
        assert(message.unknown + a + b =~= message.unknown + (a + b));
        assert(message.unknown + Seq::<u8>::empty() =~= message.unknown);
    }

    fn apply_field(
        &mut self,
        data: &[u8],
        field: u32,
        value: FieldValue,
        start: usize,
        end: usize,
        depth: u32,
    ) -> (ok: bool) {
        proof {
            reveal(ScanResponseModel::apply);
        }
        if field == 1 {
            if let FieldValue::Delimited(from, to) = value {
                if depth == 0 {
                    return false;
                }
                let mut sub = DeviceBroadcast::new();
                if !merge_bytes(&mut sub, &data[from..to], depth - 1) {
                    return false;
                }
                let ghost before = self.devices@;
                self.devices.push(sub);
                assert(self.devices@.map_values(|x: DeviceBroadcast| x@) =~= before.map_values(|x: DeviceBroadcast| x@).push(sub@));
                return true;
            }
        } else if field == 2 {
            if let FieldValue::Varint(v) = value {
                self.scan_duration_ms = v;
                return true;
            }
        }
        proof {
            lemma_decode_field_deeper(data@.subrange(start as int, end as int), depth as nat, group_depth_limit());
        }
        self.unknown.push_field(&data[start..end], Ghost(field as nat), Ghost(value.wire(data@)));
        true
    }
}

/// The content of every `ScanResponse` is well formed.
pub proof fn lemma_scan_response_well_formed(m: ScanResponse)
    ensures
        m@.well_formed(),
{
    lemma_unknown_run_fields::<ScanResponse>(m.unknown.bytes@, ScanResponseModel::keeps(), group_depth_limit());
    assert forall|i: int| 0 <= i < m@.devices.len() implies #[trigger] m@.devices[i].well_formed() by {
        lemma_device_broadcast_well_formed(m.devices@[i]);
    }
}

impl ScanResponse {
    /// A message with every field at its default.
    pub fn new() -> (r: Self)
        ensures
            r@ == ScanResponseModel::empty(),
    {
        let r = ScanResponse {
            devices: Vec::new(),
            scan_duration_ms: 0,
            unknown: ScanResponseUnknown::new(),
        };
        assert(r@.devices =~= Seq::empty());
        r
    }

    /// Reads a message from its wire form.
    pub fn parse(data: &[u8]) -> (r: Result<Self, protobuf::ParseError>)
        ensures
            match merge_message::<ScanResponse>(ScanResponseModel::empty(), data@, group_depth_limit()) {
                Some(m) => r matches Ok(msg) && msg@ == m && m.well_formed(),
                None => r is Err,
            },
    {
        proof {
            if merge_message::<ScanResponse>(ScanResponseModel::empty(), data@, group_depth_limit()) is Some {
                lemma_scan_response_parse_well_formed(ScanResponseModel::empty(), data@, group_depth_limit());
            }
        }
        let mut msg = Self::new();
        if merge_bytes(&mut msg, data, 100) {
            Ok(msg)
        } else {
            Err(parse_error())
        }
    }

    /// Same as `parse`: the message has no required fields.
    pub fn parse_dont_enforce_required(data: &[u8]) -> (r: Result<Self, protobuf::ParseError>)
        ensures
            match merge_message::<ScanResponse>(ScanResponseModel::empty(), data@, group_depth_limit()) {
                Some(m) => r matches Ok(msg) && msg@ == m && m.well_formed(),
                None => r is Err,
            },
    {
        Self::parse(data)
    }

    /// Resets every field to its default.
    pub fn clear(&mut self)
        ensures
            final(self)@ == ScanResponseModel::empty(),
    {
        *self = ScanResponse::new();
    }

    /// Replaces the message by the one `data` encodes; on an error what the
    /// message then holds is unspecified.
    pub fn clear_and_parse(&mut self, data: &[u8]) -> (r: Result<(), protobuf::ParseError>)
        ensures
            match merge_message::<ScanResponse>(ScanResponseModel::empty(), data@, group_depth_limit()) {
                Some(m) => r is Ok && final(self)@ == m && m.well_formed(),
                None => r is Err,
            },
    {
        proof {
            if merge_message::<ScanResponse>(ScanResponseModel::empty(), data@, group_depth_limit()) is Some {
                lemma_scan_response_parse_well_formed(ScanResponseModel::empty(), data@, group_depth_limit());
            }
        }
        *self = ScanResponse::new();
        if merge_bytes(self, data, 100) {
            Ok(())
        } else {
            Err(parse_error())
        }
    }

    /// Same as `clear_and_parse`: the message has no required fields; on an error what the
    /// message then holds is unspecified.
    pub fn clear_and_parse_dont_enforce_required(&mut self, data: &[u8]) -> (r: Result<(), protobuf::ParseError>)
        ensures
            match merge_message::<ScanResponse>(ScanResponseModel::empty(), data@, group_depth_limit()) {
                Some(m) => r is Ok && final(self)@ == m && m.well_formed(),
                None => r is Err,
            },
    {
        self.clear_and_parse(data)
    }

    /// Makes this message a copy of `src`.
    pub fn copy_from(&mut self, src: ScanResponseView<'_>)
        ensures
            final(self)@ == src@,
    {
        *self = src.to_owned();
    }

    /// Moves the content of `src` here, leaving `src` empty.
    pub fn take_from(&mut self, src: &mut ScanResponse)
        ensures
            final(self)@ == old(src)@,
            final(src)@ == ScanResponseModel::empty(),
    {
        let mut taken = ScanResponse::new();
        std::mem::swap(&mut taken, src);
        *self = taken;
    }

    /// Merges `src` into this message (see `merge` on the model).
    pub fn merge_from(&mut self, src: ScanResponseView<'_>)
        ensures
            final(self)@ == old(self)@.merge(src@),
    {
        match src.msg {
            Some(other) => self.merge_fields_from(other),
            None => {
                proof {
                    lemma_scan_response_merge_empty(self@);
                }
            },
        }
    }

    fn merge_fields_from(&mut self, other: &ScanResponse)
        ensures
            final(self)@ == old(self)@.merge(other@),
    {
        proof {
            reveal(ScanResponseModel::merge);
        }
        let ghost start = self@;
        let mut extra = clone_device_broadcast_list(other.devices.as_slice());
        let ghost before = self.devices@;
        self.devices.append(&mut extra);
        assert(self.devices@.map_values(|x: DeviceBroadcast| x@) =~= before.map_values(|x: DeviceBroadcast| x@) + other.devices@.map_values(|x: DeviceBroadcast| x@));
        if other.scan_duration_ms != 0 {
            self.scan_duration_ms = other.scan_duration_ms;
        }
        self.unknown.append(&other.unknown);
        assert(self@ =~= start.merge(other@));
    }

    /// Appends the wire form to `buf`.
    pub fn write_to(&self, buf: &mut Vec<u8>)
        ensures
            final(buf)@ == old(buf)@ + self@.encode(),
    {
        let ghost start = buf@;
        let ghost c1 = repeated_delimited(1, self@.devices.map_values(|x: DeviceBroadcastModel| x.encode()));
        let ghost c2 = varint_field(2, self@.scan_duration_ms);
        let ghost c3 = self@.unknown;
        write_device_broadcast_list(buf, 1, self.devices.as_slice());
        let ghost mut written = c1;
        assert(buf@ == start + written);
        write_varint_field(buf, 2, self.scan_duration_ms);
        proof {
            lemma_concat_associative(start, written, c2);
            written = written + c2;
        }
        assert(buf@ == start + written);
        append_bytes(buf, self.unknown.as_slice());
        proof {
            lemma_concat_associative(start, written, c3);
            written = written + c3;
        }
        assert(buf@ == start + written);
        assert(self@.encode() == written) by {
            assert(written == c1 + c2 + c3);
            reveal(ScanResponseModel::encode);
        }
    }

    /// The wire form, refused when it is longer than `i32::MAX` bytes. The
    /// message is well formed, and when the unknown fields of its
    /// sub-messages fit in the nesting left to them the wire form reads back
    /// as the message.
    pub fn serialize(&self) -> (r: Result<Vec<u8>, protobuf::SerializeError>)
        ensures
            match r {
                Ok(bytes) => bytes@ == self@.encode() && self@.encode().len() <= 0x7fff_ffff,
                Err(_) => self@.encode().len() > 0x7fff_ffff,
            },
            self@.well_formed(),
            self@.encode().len() <= size_limit() && self@.well_formed_at(group_depth_limit())
                ==> merge_message::<ScanResponse>(ScanResponseModel::empty(), self@.encode(), group_depth_limit()) == Some(self@),
    {
        proof {
            lemma_scan_response_well_formed(*self);
            if self@.encode().len() <= size_limit() && self@.well_formed_at(group_depth_limit()) {
                lemma_scan_response_roundtrip(self@, group_depth_limit());
            }
        }
        let mut buf = Vec::new();
        self.write_to(&mut buf);
        assert(buf@ =~= self@.encode());
        if buf.len() > 0x7fff_ffff {
            return Err(serialize_error());
        }
        Ok(buf)
    }

    pub fn as_view(&self) -> (r: ScanResponseView<'_>)
        ensures
            r@ == self@,
    {
        ScanResponseView::new(self)
    }

    pub fn as_mut(&mut self) -> (r: ScanResponseMut<'_>)
        ensures
            r@ == old(self)@,
            *final(self) == *final(r.msg),
    {
        ScanResponseMut::new(self)
    }

    pub fn devices(&self) -> (r: &[DeviceBroadcast])
        ensures
            r@.map_values(|x: DeviceBroadcast| x@) == self@.devices,
    {
        self.devices.as_slice()
    }

    pub fn devices_mut(&mut self) -> (r: &mut Vec<DeviceBroadcast>)
        ensures
            (*r)@.map_values(|x: DeviceBroadcast| x@) == old(self)@.devices,
            final(self)@ == (ScanResponseModel { devices: (*final(r))@.map_values(|x: DeviceBroadcast| x@), ..old(self)@ }),
    {
        &mut self.devices
    }

    pub fn set_devices(&mut self, src: Vec<DeviceBroadcast>)
        ensures
            final(self)@ == (ScanResponseModel { devices: src@.map_values(|x: DeviceBroadcast| x@), ..old(self)@ }),
    {
        self.devices = src;
    }

    pub fn scan_duration_ms(&self) -> (r: u64)
        ensures
            r == self@.scan_duration_ms,
    {
        self.scan_duration_ms
    }

    pub fn set_scan_duration_ms(&mut self, val: u64)
        ensures
            final(self)@ == (ScanResponseModel { scan_duration_ms: val, ..old(self)@ }),
    {
        self.scan_duration_ms = val;
    }
}

impl Clone for ScanResponse {
    fn clone(&self) -> (r: Self)
        ensures
            r@ == self@,
    {
        let r = ScanResponse {
            devices: clone_device_broadcast_list(self.devices.as_slice()),
            scan_duration_ms: self.scan_duration_ms,
            unknown: self.unknown.copy(),
        };
        r
    }
}

impl Default for ScanResponse {
    fn default() -> (r: Self)
        ensures
            r@ == ScanResponseModel::empty(),
    {
        Self::new()
    }
}

/// Read access to a `ScanResponse`; the default view reads as the empty message.
#[derive(Clone, Copy)]
pub struct ScanResponseView<'msg> {
    msg: Option<&'msg ScanResponse>,
}

impl<'msg> View for ScanResponseView<'msg> {
    type V = ScanResponseModel;

    closed spec fn view(&self) -> ScanResponseModel {
        match self.msg {
            Some(m) => m@,
            None => ScanResponseModel::empty(),
        }
    }
}

impl<'msg> ScanResponseView<'msg> {
    pub fn new(msg: &'msg ScanResponse) -> (r: Self)
        ensures
            r@ == msg@,
    {
        ScanResponseView { msg: Some(msg) }
    }

    /// An owned copy of the message.
    pub fn to_owned(&self) -> (r: ScanResponse)
        ensures
            r@ == self@,
    {
        match self.msg {
            Some(m) => m.clone(),
            None => ScanResponse::new(),
        }
    }

    /// The wire form, refused when it is longer than `i32::MAX` bytes. The
    /// message is well formed, and when the unknown fields of its
    /// sub-messages fit in the nesting left to them the wire form reads back
    /// as the message.
    pub fn serialize(&self) -> (r: Result<Vec<u8>, protobuf::SerializeError>)
        ensures
            match r {
                Ok(bytes) => bytes@ == self@.encode() && self@.encode().len() <= 0x7fff_ffff,
                Err(_) => self@.encode().len() > 0x7fff_ffff,
            },
            self@.well_formed(),
            self@.encode().len() <= size_limit() && self@.well_formed_at(group_depth_limit())
                ==> merge_message::<ScanResponse>(ScanResponseModel::empty(), self@.encode(), group_depth_limit()) == Some(self@),
    {
        match self.msg {
            Some(m) => m.serialize(),
            None => ScanResponse::new().serialize(),
        }
    }

    pub fn devices(self) -> (r: &'msg [DeviceBroadcast])
        ensures
            r@.map_values(|x: DeviceBroadcast| x@) == self@.devices,
    {
        match self.msg {
            Some(m) => m.devices.as_slice(),
            None => {
                assert(Seq::<DeviceBroadcast>::empty().map_values(|x: DeviceBroadcast| x@) =~= Seq::empty());
                &[]
            },
        }
    }

    pub fn scan_duration_ms(self) -> (r: u64)
        ensures
            r == self@.scan_duration_ms,
    {
        match self.msg {
            Some(m) => m.scan_duration_ms,
            None => 0,
        }
    }
}

impl<'msg> Default for ScanResponseView<'msg> {
    fn default() -> (r: Self)
        ensures
            r@ == ScanResponseModel::empty(),
    {
        ScanResponseView { msg: None }
    }
}

/// Write access to a `ScanResponse` held elsewhere.
pub struct ScanResponseMut<'msg> {
    /// The message written through this handle.
    pub msg: &'msg mut ScanResponse,
}

impl<'msg> View for ScanResponseMut<'msg> {
    type V = ScanResponseModel;

    open spec fn view(&self) -> ScanResponseModel {
        (*self.msg)@
    }
}

impl<'msg> ScanResponseMut<'msg> {
    pub fn new(msg: &'msg mut ScanResponse) -> (r: Self)
        ensures
            r@ == old(msg)@,
            *final(msg) == *final(r.msg),
    {
        ScanResponseMut { msg }
    }

    /// An owned copy of the message.
    pub fn to_owned(&self) -> (r: ScanResponse)
        ensures
            r@ == self@,
    {
        self.msg.clone()
    }

    pub fn as_view(&self) -> (r: ScanResponseView<'_>)
        ensures
            r@ == self@,
    {
        ScanResponseView::new(self.msg)
    }

    /// The wire form, refused when it is longer than `i32::MAX` bytes. The
    /// message is well formed, and when the unknown fields of its
    /// sub-messages fit in the nesting left to them the wire form reads back
    /// as the message.
    pub fn serialize(&self) -> (r: Result<Vec<u8>, protobuf::SerializeError>)
        ensures
            match r {
                Ok(bytes) => bytes@ == self@.encode() && self@.encode().len() <= 0x7fff_ffff,
                Err(_) => self@.encode().len() > 0x7fff_ffff,
            },
            self@.well_formed(),
            self@.encode().len() <= size_limit() && self@.well_formed_at(group_depth_limit())
                ==> merge_message::<ScanResponse>(ScanResponseModel::empty(), self@.encode(), group_depth_limit()) == Some(self@),
    {
        self.msg.serialize()
    }

    /// Resets every field to its default.
    pub fn clear(&mut self)
        ensures
            final(self)@ == ScanResponseModel::empty(),
            *final(final(self).msg) == *final(old(self).msg),
    {
        self.msg.clear();
    }

    /// Replaces the message by the one `data` encodes.
    pub fn clear_and_parse(&mut self, data: &[u8]) -> (r: Result<(), protobuf::ParseError>)
        ensures
            match merge_message::<ScanResponse>(ScanResponseModel::empty(), data@, group_depth_limit()) {
                Some(m) => r is Ok && final(self)@ == m && m.well_formed(),
                None => r is Err,
            },
            *final(final(self).msg) == *final(old(self).msg),
    {
        self.msg.clear_and_parse(data)
    }

    /// Replaces the message by the one `data` encodes.
    pub fn clear_and_parse_dont_enforce_required(&mut self, data: &[u8]) -> (r: Result<(), protobuf::ParseError>)
        ensures
            match merge_message::<ScanResponse>(ScanResponseModel::empty(), data@, group_depth_limit()) {
                Some(m) => r is Ok && final(self)@ == m && m.well_formed(),
                None => r is Err,
            },
            *final(final(self).msg) == *final(old(self).msg),
    {
        self.msg.clear_and_parse_dont_enforce_required(data)
    }

    /// Makes the message a copy of `src`.
    pub fn copy_from(&mut self, src: ScanResponseView<'_>)
        ensures
            final(self)@ == src@,
            *final(final(self).msg) == *final(old(self).msg),
    {
        self.msg.copy_from(src);
    }

    /// Merges `src` into the message.
    pub fn merge_from(&mut self, src: ScanResponseView<'_>)
        ensures
            final(self)@ == old(self)@.merge(src@),
            *final(final(self).msg) == *final(old(self).msg),
    {
        self.msg.merge_from(src);
    }

    pub fn devices(&self) -> (r: &[DeviceBroadcast])
        ensures
            r@.map_values(|x: DeviceBroadcast| x@) == self@.devices,
    {
        self.msg.devices()
    }

    pub fn devices_mut(&mut self) -> (r: &mut Vec<DeviceBroadcast>)
        ensures
            (*r)@.map_values(|x: DeviceBroadcast| x@) == old(self)@.devices,
            final(self)@ == (ScanResponseModel { devices: (*final(r))@.map_values(|x: DeviceBroadcast| x@), ..old(self)@ }),
            *final(final(self).msg) == *final(old(self).msg),
    {
        self.msg.devices_mut()
    }

    pub fn set_devices(&mut self, src: Vec<DeviceBroadcast>)
        ensures
            final(self)@ == (ScanResponseModel { devices: src@.map_values(|x: DeviceBroadcast| x@), ..old(self)@ }),
            *final(final(self).msg) == *final(old(self).msg),
    {
        self.msg.set_devices(src);
    }

    pub fn scan_duration_ms(&self) -> (r: u64)
        ensures
            r == self@.scan_duration_ms,
    {
        self.msg.scan_duration_ms()
    }

    pub fn set_scan_duration_ms(&mut self, val: u64)
        ensures
            final(self)@ == (ScanResponseModel { scan_duration_ms: val, ..old(self)@ }),
            *final(final(self).msg) == *final(old(self).msg),
    {
        self.msg.set_scan_duration_ms(val);
    }
}

/// The content of a `DeviceQuery`.
pub struct DeviceQueryModel {
    pub device_id: Seq<char>,
    pub capabilities: Seq<DeviceCapability>,
    /// The fields read but not understood, as they came, in order.
    pub unknown: Seq<u8>,
}

impl DeviceQueryModel {
    /// The message with every field at its default.
    pub open spec fn empty() -> Self {
        DeviceQueryModel {
            device_id: Seq::empty(),
            capabilities: Seq::empty(),
            unknown: Seq::empty(),
        }
    }

    /// The wire form: fields in number order, defaults and absent
    /// sub-messages left out, then the unknown fields as they came.
    #[verifier::opaque]
    pub open spec fn encode(self) -> Seq<u8> {
        bytes_field(1, encode_utf8(self.device_id))
            + packed_field(2, self.capabilities.map_values(|e: DeviceCapability| e.0))
            + self.unknown
    }

    /// Whether a field is kept, as it came, among the unknown fields: its
    /// number is not one of this message's, or it comes with another wire
    /// type than its field is written with.
    pub open spec fn keeps_unknown(field: nat, value: WireValue) -> bool {
        if field == 1 {
            !(value is Delimited)
        } else if field == 2 {
            !(value is Varint || value is Delimited)
        } else {
            true
        }
    }

    /// `keeps_unknown` as a function.
    pub open spec fn keeps() -> spec_fn(nat, WireValue) -> bool {
        |field: nat, value: WireValue| DeviceQueryModel::keeps_unknown(field, value)
    }

    /// How one field of the wire form changes the message; `raw` is the
    /// field as it came. `None` when the field's content is malformed.
    #[verifier::opaque]
    pub open spec fn apply(self, field: nat, value: WireValue, raw: Seq<u8>, depth: nat) -> Option<Self> {
        if Self::keeps_unknown(field, value) {
            Some(DeviceQueryModel { unknown: self.unknown + raw, ..self })
        } else if field == 1 {
            match value {
                WireValue::Delimited(b) => if valid_utf8(b) {
                    Some(DeviceQueryModel { device_id: decode_utf8(b), ..self })
                } else {
                    None
                },
                _ => Some(self),
            }
        } else if field == 2 {
            match value {
                WireValue::Varint(v) => Some(DeviceQueryModel { capabilities: self.capabilities.push(DeviceCapability(wire_i32(v))), ..self }),
                WireValue::Delimited(b) => match unpack(b) {
                    Some(values) => Some(DeviceQueryModel { capabilities: self.capabilities + values.map_values(|x: i32| DeviceCapability(x)), ..self }),
                    None => None,
                },
                _ => Some(self),
            }
        } else {
            Some(self)
        }
    }

    /// `other` merged into this message, as protobuf merges: a scalar, string
    /// or bytes field set in `other` replaces the one here, repeated fields
    /// are appended, sub-messages are merged, map entries inserted and
    /// unknown fields appended.
    #[verifier::opaque]
    pub open spec fn merge(self, other: Self) -> Self {
        DeviceQueryModel {
            device_id: if other.device_id.len() > 0 { other.device_id } else { self.device_id },
            capabilities: self.capabilities + other.capabilities,
            unknown: self.unknown + other.unknown,
        }
    }

    /// What writing the message out and reading it back relies on: the
    /// unknown fields are whole fields this message does not read, and
    /// the same holds of every sub-message.
    pub open spec fn well_formed(self) -> bool {
        &&& unknown_fields::<DeviceQuery>(self.unknown, group_depth_limit())
    }

    /// What reading the wire form back with `depth` levels of nesting left
    /// relies on: the message is well formed, its unknown fields read as
    /// whole fields with `depth` levels, and each sub-message reads back
    /// with one level less.
    pub open spec fn well_formed_at(self, depth: nat) -> bool {
        &&& self.well_formed()
        &&& unknown_fields::<DeviceQuery>(self.unknown, depth)
    }
}

/// Reading the `device_id` field as `b` writes it merges it into `m`.
proof fn lemma_device_query_read_device_id(m: DeviceQueryModel, b: DeviceQueryModel, rest: Seq<u8>, depth: nat)
    requires
        bytes_field(1, encode_utf8(b.device_id)).len() <= size_limit(),
    ensures
        merge_message::<DeviceQuery>(m, bytes_field(1, encode_utf8(b.device_id)) + rest, depth) == merge_message::<DeviceQuery>(
            DeviceQueryModel { device_id: if b.device_id.len() > 0 { b.device_id } else { m.device_id }, ..m },
            rest,
            depth,
        ),
{
    let next = DeviceQueryModel { device_id: if b.device_id.len() > 0 { b.device_id } else { m.device_id }, ..m };
    reveal(DeviceQueryModel::apply);
    encode_utf8_decode_utf8(b.device_id);
    encode_utf8_valid_utf8(b.device_id);
    lemma_merge_bytes_field::<DeviceQuery>(m, 1, encode_utf8(b.device_id), rest, next, depth);
}

/// Reading the `capabilities` field as `b` writes it merges it into `m`.
proof fn lemma_device_query_read_capabilities(m: DeviceQueryModel, b: DeviceQueryModel, rest: Seq<u8>, depth: nat)
    requires
        packed_field(2, b.capabilities.map_values(|e: DeviceCapability| e.0)).len() <= size_limit(),
    ensures
        merge_message::<DeviceQuery>(m, packed_field(2, b.capabilities.map_values(|e: DeviceCapability| e.0)) + rest, depth) == merge_message::<DeviceQuery>(
            DeviceQueryModel { capabilities: m.capabilities + b.capabilities, ..m },
            rest,
            depth,
        ),
{
    let next = DeviceQueryModel { capabilities: m.capabilities + b.capabilities, ..m };
    reveal(DeviceQueryModel::apply);
    if b.capabilities.len() > 0 {
        let values = b.capabilities.map_values(|e: DeviceCapability| e.0);
        lemma_unpack_packed(values);
        assert(m.capabilities + values.map_values(|x: i32| DeviceCapability(x)) =~= m.capabilities + b.capabilities);
        lemma_merge_delimited::<DeviceQuery>(m, 2, packed(values), rest, next, depth);
    } else {
        assert(packed_field(2, b.capabilities.map_values(|e: DeviceCapability| e.0)) + rest =~= rest);
        assert(m.capabilities =~= m.capabilities + b.capabilities);
    }
}

/// Reading the unknown fields as `b` writes them adds them to those of `m`.
proof fn lemma_device_query_read_unknown(m: DeviceQueryModel, b: DeviceQueryModel, rest: Seq<u8>, depth: nat)
    requires
        b.unknown.len() <= size_limit(),
        b.well_formed_at(depth),
    ensures
        merge_message::<DeviceQuery>(m, b.unknown + rest, depth) == merge_message::<DeviceQuery>(
            DeviceQueryModel { unknown: m.unknown + b.unknown, ..m },
            rest,
            depth,
        ),
{
    lemma_merge_unknown::<DeviceQuery>(m, b.unknown, rest, depth);
}

/// Reading the wire form of `b` into `a`, with `depth` levels of nesting left,
/// gives `b` merged into `a`.
pub proof fn lemma_device_query_merge_wire(a: DeviceQueryModel, b: DeviceQueryModel, depth: nat)
    requires
        b.encode().len() <= size_limit(),
        b.well_formed_at(depth),
    ensures
        merge_message::<DeviceQuery>(a, b.encode(), depth) == Some(a.merge(b)),
{
    let c1 = bytes_field(1, encode_utf8(b.device_id));
    let c2 = packed_field(2, b.capabilities.map_values(|e: DeviceCapability| e.0));
    let c3 = b.unknown;
    assert(b.encode() == c1 + c2 + c3) by {
        reveal(DeviceQueryModel::encode);
    }
    let m0 = a;
    let m1 = DeviceQueryModel { device_id: if b.device_id.len() > 0 { b.device_id } else { m0.device_id }, ..m0 };
    lemma_device_query_read_device_id(m0, b, Seq::empty(), depth);
    assert(c1 + Seq::empty() =~= c1);
    lemma_merge_nothing::<DeviceQuery>(m1, depth);
    let m2 = DeviceQueryModel { capabilities: m1.capabilities + b.capabilities, ..m1 };
    lemma_device_query_read_capabilities(m1, b, Seq::empty(), depth);
    assert(c2 + Seq::empty() =~= c2);
    lemma_merge_nothing::<DeviceQuery>(m2, depth);
    lemma_merge_concat::<DeviceQuery>(a, c1, c2, depth);
    let m3 = DeviceQueryModel { unknown: m2.unknown + b.unknown, ..m2 };
    lemma_device_query_read_unknown(m2, b, Seq::empty(), depth);
    assert(c3 + Seq::empty() =~= c3);
    lemma_merge_nothing::<DeviceQuery>(m3, depth);
    lemma_merge_concat::<DeviceQuery>(a, c1 + c2, c3, depth);
    assert(m3 == a.merge(b)) by {
        reveal(DeviceQueryModel::merge);
    }
}

/// Merging the empty message changes nothing.
pub proof fn lemma_device_query_merge_empty(a: DeviceQueryModel)
    ensures
        a.merge(DeviceQueryModel::empty()) == a,
{
    reveal(DeviceQueryModel::merge);
    assert(a.capabilities + Seq::empty() =~= a.capabilities);
    assert(a.unknown + Seq::empty() =~= a.unknown);
    assert(a.merge(DeviceQueryModel::empty()) =~= a);
}

/// Merging a message into the empty one gives that message.
pub proof fn lemma_device_query_empty_merge(b: DeviceQueryModel)
    ensures
        DeviceQueryModel::empty().merge(b) == b,
{
    reveal(DeviceQueryModel::merge);
    assert(b.device_id.len() == 0 ==> b.device_id =~= Seq::<char>::empty());
    assert(Seq::empty() + b.capabilities =~= b.capabilities);
    assert(Seq::empty() + b.unknown =~= b.unknown);
    assert(DeviceQueryModel::empty().merge(b) =~= b);
}

/// Writing a message out and reading it back, with `depth` levels of
/// nesting left (`group_depth_limit()` for a message read on its own),
/// gives the same message.
pub proof fn lemma_device_query_roundtrip(m: DeviceQueryModel, depth: nat)
    requires
        m.encode().len() <= size_limit(),
        m.well_formed_at(depth),
    ensures
        merge_message::<DeviceQuery>(DeviceQueryModel::empty(), m.encode(), depth) == Some(m),
{
    lemma_device_query_merge_wire(DeviceQueryModel::empty(), m, depth);
    lemma_device_query_empty_merge(m);
}

/// Reading two encoded messages written one after the other, with `depth`
/// levels of nesting left, gives the second merged into the first.
pub proof fn lemma_device_query_concat(a: DeviceQueryModel, b: DeviceQueryModel, depth: nat)
    requires
        a.encode().len() <= size_limit(),
        b.encode().len() <= size_limit(),
        a.well_formed_at(depth),
        b.well_formed_at(depth),
    ensures
        merge_message::<DeviceQuery>(DeviceQueryModel::empty(), a.encode() + b.encode(), depth) == Some(a.merge(b)),
{
    lemma_device_query_roundtrip(a, depth);
    lemma_merge_concat::<DeviceQuery>(DeviceQueryModel::empty(), a.encode(), b.encode(), depth);
    lemma_device_query_merge_wire(a, b, depth);
}

/// Merging two well-formed messages gives a well-formed message.
pub proof fn lemma_device_query_merge_well_formed(a: DeviceQueryModel, b: DeviceQueryModel)
    requires
        a.well_formed(),
        b.well_formed(),
    ensures
        a.merge(b).well_formed(),
{
    reveal(DeviceQueryModel::merge);
    lemma_unknown_fields_concat::<DeviceQuery>(a.unknown, b.unknown, group_depth_limit());
}

/// Reading one whole field into a well-formed message keeps it well formed.
proof fn lemma_device_query_apply_well_formed(m: DeviceQueryModel, field: nat, value: WireValue, raw: Seq<u8>, depth: nat)
    requires
        m.well_formed(),
        depth <= group_depth_limit(),
        decode_field(raw, depth) == Some((field, value, raw.len())),
        m.apply(field, value, raw, depth) is Some,
    ensures
        m.apply(field, value, raw, depth)->0.well_formed(),
{
    reveal(DeviceQueryModel::apply);
    if DeviceQueryModel::keeps_unknown(field, value) {
        lemma_decode_field_deeper(raw, depth, group_depth_limit());
        lemma_unknown_field::<DeviceQuery>(raw, field, value, group_depth_limit());
        lemma_unknown_fields_concat::<DeviceQuery>(m.unknown, raw, group_depth_limit());
    }
}

/// Reading whole fields into a well-formed message, with at most
/// `group_depth_limit()` levels of nesting left, keeps it well formed.
pub proof fn lemma_device_query_parse_well_formed(m: DeviceQueryModel, s: Seq<u8>, depth: nat)
    requires
        m.well_formed(),
        depth <= group_depth_limit(),
        merge_message::<DeviceQuery>(m, s, depth) is Some,
    ensures
        merge_message::<DeviceQuery>(m, s, depth)->0.well_formed(),
{
    assert forall|x: DeviceQueryModel, field: nat, value: WireValue, raw: Seq<u8>|
        x.well_formed() && decode_field(raw, depth) == Some((field, value, raw.len())) && #[trigger] DeviceQuery::apply_wire(
            x,
            field,
            value,
            raw,
            depth,
        ) is Some implies DeviceQuery::apply_wire(x, field, value, raw, depth)->0.well_formed() by {
        lemma_device_query_apply_well_formed(x, field, value, raw, depth);
    }
    lemma_merge_preserves::<DeviceQuery>(m, s, |x: DeviceQueryModel| x.well_formed(), depth);
}

/// Reading `capabilities` written unpacked, one varint field per value, appends
/// every value, in order, to the list read so far.
pub proof fn lemma_device_query_capabilities_unpacked(m: DeviceQueryModel, values: Seq<i32>, rest: Seq<u8>, depth: nat)
    ensures
        merge_message::<DeviceQuery>(m, unpacked(2, values) + rest, depth) == merge_message::<DeviceQuery>(
            (DeviceQueryModel { capabilities: m.capabilities + values.map_values(|x: i32| DeviceCapability(x)), ..m }),
            rest,
            depth,
        ),
    decreases values.len(),
{
    if values.len() == 0 {
        assert(unpacked(2, values) + rest =~= rest);
        assert(m.capabilities + values.map_values(|x: i32| DeviceCapability(x)) =~= m.capabilities);
    } else {
        let v = values[0];
        let next = DeviceQueryModel { capabilities: m.capabilities.push(DeviceCapability(v)), ..m };
        let tail = unpacked(2, values.drop_first()) + rest;
        reveal(DeviceQueryModel::apply);
        lemma_i32_wire_roundtrip(v);
        assert(unpacked(2, values) + rest =~= field_key(2, 0) + varint(i32_wire(v) as nat) + tail);
        lemma_merge_varint::<DeviceQuery>(m, 2, i32_wire(v), tail, next, depth);
        lemma_device_query_capabilities_unpacked(next, values.drop_first(), rest, depth);
        assert(next.capabilities + values.drop_first().map_values(|x: i32| DeviceCapability(x)) =~= m.capabilities + values.map_values(|x: i32| DeviceCapability(x)));
    }
}

/// `capabilities` reads the same written packed as written unpacked.
pub proof fn lemma_device_query_capabilities_packed_as_unpacked(m: DeviceQueryModel, values: Seq<i32>, rest: Seq<u8>, depth: nat)
    requires
        packed_field(2, values).len() <= size_limit(),
    ensures
        merge_message::<DeviceQuery>(m, packed_field(2, values) + rest, depth) == merge_message::<DeviceQuery>(
            m,
            unpacked(2, values) + rest,
            depth,
        ),
{
    lemma_device_query_capabilities_unpacked(m, values, rest, depth);
    let next = DeviceQueryModel { capabilities: m.capabilities + values.map_values(|x: i32| DeviceCapability(x)), ..m };
    if values.len() == 0 {
        assert(packed_field(2, values) + rest =~= rest);
        assert(m.capabilities + values.map_values(|x: i32| DeviceCapability(x)) =~= m.capabilities);
        assert(next =~= m);
    } else {
        reveal(DeviceQueryModel::apply);
        lemma_unpack_packed(values);
        lemma_merge_delimited::<DeviceQuery>(m, 2, packed(values), rest, next, depth);
    }
}

/// A request for what is known of one device.
pub struct DeviceQuery {
    device_id: String,
    capabilities: Vec<DeviceCapability>,
    unknown: DeviceQueryUnknown,
}

impl View for DeviceQuery {
    type V = DeviceQueryModel;

    closed spec fn view(&self) -> DeviceQueryModel {
        DeviceQueryModel {
            device_id: self.device_id@,
            capabilities: self.capabilities@,
            unknown: self.unknown@,
        }
    }
}

/// The unknown fields of a `DeviceQuery`: whole fields it does not read, as they
/// came, in order.
struct DeviceQueryUnknown {
    bytes: Vec<u8>,
}

impl View for DeviceQueryUnknown {
    type V = Seq<u8>;

    closed spec fn view(&self) -> Seq<u8> {
        if unknown_run(self.bytes@, DeviceQueryModel::keeps(), group_depth_limit()) {
            self.bytes@
        } else {
            Seq::empty()
        }
    }
}

impl DeviceQueryUnknown {
    #[verifier::type_invariant]
    closed spec fn whole(self) -> bool {
        unknown_run(self.bytes@, DeviceQueryModel::keeps(), group_depth_limit())
    }

    fn new() -> (r: Self)
        ensures
            r@ == Seq::<u8>::empty(),
    {
        proof {
            lemma_unknown_run_empty(DeviceQueryModel::keeps(), group_depth_limit());
        }
        DeviceQueryUnknown { bytes: Vec::new() }
    }

    /// Adds one whole field that the message does not read.
    fn push_field(&mut self, raw: &[u8], Ghost(field): Ghost<nat>, Ghost(value): Ghost<WireValue>)
        requires
            decode_field(raw@, group_depth_limit()) == Some((field, value, raw@.len())),
            DeviceQueryModel::keeps_unknown(field, value),
        ensures
            final(self)@ == old(self)@ + raw@,
    {
        proof {
            use_type_invariant(&*self);
            lemma_unknown_run_field(raw@, field, value, DeviceQueryModel::keeps(), group_depth_limit());
            lemma_unknown_run_concat(self.bytes@, raw@, DeviceQueryModel::keeps(), group_depth_limit());
            lemma_unknown_run_empty(DeviceQueryModel::keeps(), group_depth_limit());
        }
        let mut bytes = Vec::new();
        std::mem::swap(&mut bytes, &mut self.bytes);
        append_bytes(&mut bytes, raw);
        self.bytes = bytes;
    }

    /// Adds the unknown fields of another message of the same kind.
    fn append(&mut self, other: &Self)
        ensures
            final(self)@ == old(self)@ + other@,
    {
        proof {
            use_type_invariant(&*self);
            use_type_invariant(other);
            lemma_unknown_run_concat(self.bytes@, other.bytes@, DeviceQueryModel::keeps(), group_depth_limit());
            lemma_unknown_run_empty(DeviceQueryModel::keeps(), group_depth_limit());
        }
        let mut bytes = Vec::new();
        std::mem::swap(&mut bytes, &mut self.bytes);
        append_bytes(&mut bytes, other.bytes.as_slice());
        self.bytes = bytes;
    }

    fn as_slice(&self) -> (r: &[u8])
        ensures
            r@ == self@,
    {
        proof {
            use_type_invariant(self);
        }
        self.bytes.as_slice()
    }

    fn copy(&self) -> (r: Self)
        ensures
            r@ == self@,
    {
        proof {
            use_type_invariant(self);
        }
        DeviceQueryUnknown { bytes: copy_bytes(self.bytes.as_slice()) }
    }
}

impl WireMessage for DeviceQuery {
    open spec fn apply_wire(message: DeviceQueryModel, field: nat, value: WireValue, raw: Seq<u8>, depth: nat) -> Option<DeviceQueryModel> {
        message.apply(field, value, raw, depth)
    }

    open spec fn keeps_unknown(field: nat, value: WireValue) -> bool {
        DeviceQueryModel::keeps_unknown(field, value)
    }

    open spec fn add_unknown(message: DeviceQueryModel, raw: Seq<u8>) -> DeviceQueryModel {
        DeviceQueryModel { unknown: message.unknown + raw, ..message }
    }

    proof fn lemma_apply_unknown(message: DeviceQueryModel, field: nat, value: WireValue, raw: Seq<u8>, depth: nat) {
        reveal(DeviceQueryModel::apply);
    }

    proof fn lemma_add_unknown(message: DeviceQueryModel, a: Seq<u8>, b: Seq<u8>) {
        assert(message.unknown + a + b =~= message.unknown + (a + b));
        assert(message.unknown + Seq::<u8>::empty() =~= message.unknown);
    }

    fn apply_field(
        &mut self,
        data: &[u8],
        field: u32,
        value: FieldValue,
        start: usize,
        end: usize,
        depth: u32,
    ) -> (ok: bool) {
        proof {
            reveal(DeviceQueryModel::apply);
        }
        if field == 1 {
            if let FieldValue::Delimited(from, to) = value {
                match proto_string(&data[from..to]) {
                    Some(text) => self.device_id = text,
                    None => return false,
                }
                return true;
            }
        } else if field == 2 {
            match value {
                FieldValue::Varint(v) => {
                    self.capabilities.push(DeviceCapability(to_i32(v)));
                    return true;
                },
                FieldValue::Delimited(from, to) => match read_packed(&data[from..to]) {
                    Some(values) => {
                        DeviceCapability::extend_from_values(&mut self.capabilities, values.as_slice());
                        return true;
                    },
                    None => return false,
                },
                _ => {},
            }
        }
        proof {
            lemma_decode_field_deeper(data@.subrange(start as int, end as int), depth as nat, group_depth_limit());
        }
        self.unknown.push_field(&data[start..end], Ghost(field as nat), Ghost(value.wire(data@)));
        true
    }
}

/// The content of every `DeviceQuery` is well formed.
pub proof fn lemma_device_query_well_formed(m: DeviceQuery)
    ensures
        m@.well_formed(),
{
    lemma_unknown_run_fields::<DeviceQuery>(m.unknown.bytes@, DeviceQueryModel::keeps(), group_depth_limit());
}

impl DeviceQuery {
    /// A message with every field at its default.
    pub fn new() -> (r: Self)
        ensures
            r@ == DeviceQueryModel::empty(),
    {
        let r = DeviceQuery {
            device_id: String::new(),
            capabilities: Vec::new(),
            unknown: DeviceQueryUnknown::new(),
        };
        r
    }

    /// Reads a message from its wire form.
    pub fn parse(data: &[u8]) -> (r: Result<Self, protobuf::ParseError>)
        ensures
            match merge_message::<DeviceQuery>(DeviceQueryModel::empty(), data@, group_depth_limit()) {
                Some(m) => r matches Ok(msg) && msg@ == m && m.well_formed(),
                None => r is Err,
            },
    {
        proof {
            if merge_message::<DeviceQuery>(DeviceQueryModel::empty(), data@, group_depth_limit()) is Some {
                lemma_device_query_parse_well_formed(DeviceQueryModel::empty(), data@, group_depth_limit());
            }
        }
        let mut msg = Self::new();
        if merge_bytes(&mut msg, data, 100) {
            Ok(msg)
        } else {
            Err(parse_error())
        }
    }

    /// Same as `parse`: the message has no required fields.
    pub fn parse_dont_enforce_required(data: &[u8]) -> (r: Result<Self, protobuf::ParseError>)
        ensures
            match merge_message::<DeviceQuery>(DeviceQueryModel::empty(), data@, group_depth_limit()) {
                Some(m) => r matches Ok(msg) && msg@ == m && m.well_formed(),
                None => r is Err,
            },
    {
        Self::parse(data)
    }

    /// Resets every field to its default.
    pub fn clear(&mut self)
        ensures
            final(self)@ == DeviceQueryModel::empty(),
    {
        *self = DeviceQuery::new();
    }

    /// Replaces the message by the one `data` encodes; on an error what the
    /// message then holds is unspecified.
    pub fn clear_and_parse(&mut self, data: &[u8]) -> (r: Result<(), protobuf::ParseError>)
        ensures
            match merge_message::<DeviceQuery>(DeviceQueryModel::empty(), data@, group_depth_limit()) {
                Some(m) => r is Ok && final(self)@ == m && m.well_formed(),
                None => r is Err,
            },
    {
        proof {
            if merge_message::<DeviceQuery>(DeviceQueryModel::empty(), data@, group_depth_limit()) is Some {
                lemma_device_query_parse_well_formed(DeviceQueryModel::empty(), data@, group_depth_limit());
            }
        }
        *self = DeviceQuery::new();
        if merge_bytes(self, data, 100) {
            Ok(())
        } else {
            Err(parse_error())
        }
    }

    /// Same as `clear_and_parse`: the message has no required fields; on an error what the
    /// message then holds is unspecified.
    pub fn clear_and_parse_dont_enforce_required(&mut self, data: &[u8]) -> (r: Result<(), protobuf::ParseError>)
        ensures
            match merge_message::<DeviceQuery>(DeviceQueryModel::empty(), data@, group_depth_limit()) {
                Some(m) => r is Ok && final(self)@ == m && m.well_formed(),
                None => r is Err,
            },
    {
        self.clear_and_parse(data)
    }

    /// Makes this message a copy of `src`.
    pub fn copy_from(&mut self, src: DeviceQueryView<'_>)
        ensures
            final(self)@ == src@,
    {
        *self = src.to_owned();
    }

    /// Moves the content of `src` here, leaving `src` empty.
    pub fn take_from(&mut self, src: &mut DeviceQuery)
        ensures
            final(self)@ == old(src)@,
            final(src)@ == DeviceQueryModel::empty(),
    {
        let mut taken = DeviceQuery::new();
        std::mem::swap(&mut taken, src);
        *self = taken;
    }

    /// Merges `src` into this message (see `merge` on the model).
    pub fn merge_from(&mut self, src: DeviceQueryView<'_>)
        ensures
            final(self)@ == old(self)@.merge(src@),
    {
        match src.msg {
            Some(other) => self.merge_fields_from(other),
            None => {
                proof {
                    lemma_device_query_merge_empty(self@);
                }
            },
        }
    }

    fn merge_fields_from(&mut self, other: &DeviceQuery)
        ensures
            final(self)@ == old(self)@.merge(other@),
    {
        proof {
            reveal(DeviceQueryModel::merge);
        }
        let ghost start = self@;
        if !other.device_id.as_str().is_empty() {
            self.device_id = other.device_id.clone();
        }
        let mut extra = copy_items(other.capabilities.as_slice());
        let ghost before = self.capabilities@;
        self.capabilities.append(&mut extra);
        assert(self.capabilities@ =~= before + other.capabilities@);
        self.unknown.append(&other.unknown);
        assert(self@ =~= start.merge(other@));
    }

    /// Appends the wire form to `buf`.
    pub fn write_to(&self, buf: &mut Vec<u8>)
        ensures
            final(buf)@ == old(buf)@ + self@.encode(),
    {
        let ghost start = buf@;
        let ghost c1 = bytes_field(1, encode_utf8(self@.device_id));
        let ghost c2 = packed_field(2, self@.capabilities.map_values(|e: DeviceCapability| e.0));
        let ghost c3 = self@.unknown;
        write_bytes_field(buf, 1, self.device_id.as_str().as_bytes());
        let ghost mut written = c1;
        assert(buf@ == start + written);
        let capabilities_values = DeviceCapability::values_of(self.capabilities.as_slice());
        write_packed_field(buf, 2, capabilities_values.as_slice());
        proof {
            lemma_concat_associative(start, written, c2);
            written = written + c2;
        }
        assert(buf@ == start + written);
        append_bytes(buf, self.unknown.as_slice());
        proof {
            lemma_concat_associative(start, written, c3);
            written = written + c3;
        }
        assert(buf@ == start + written);
        assert(self@.encode() == written) by {
            assert(written == c1 + c2 + c3);
            reveal(DeviceQueryModel::encode);
        }
    }

    /// The wire form, refused when it is longer than `i32::MAX` bytes. The
    /// message is well formed, so the wire form reads back as the message.
    pub fn serialize(&self) -> (r: Result<Vec<u8>, protobuf::SerializeError>)
        ensures
            match r {
                Ok(bytes) => bytes@ == self@.encode() && self@.encode().len() <= 0x7fff_ffff,
                Err(_) => self@.encode().len() > 0x7fff_ffff,
            },
            self@.well_formed(),
            self@.encode().len() <= size_limit() ==> merge_message::<DeviceQuery>(
                DeviceQueryModel::empty(),
                self@.encode(),
                group_depth_limit(),
            ) == Some(self@),
    {
        proof {
            lemma_device_query_well_formed(*self);
            if self@.encode().len() <= size_limit() {
                lemma_device_query_roundtrip(self@, group_depth_limit());
            }
        }
        let mut buf = Vec::new();
        self.write_to(&mut buf);
        assert(buf@ =~= self@.encode());
        if buf.len() > 0x7fff_ffff {
            return Err(serialize_error());
        }
        Ok(buf)
    }

    pub fn as_view(&self) -> (r: DeviceQueryView<'_>)
        ensures
            r@ == self@,
    {
        DeviceQueryView::new(self)
    }

    pub fn as_mut(&mut self) -> (r: DeviceQueryMut<'_>)
        ensures
            r@ == old(self)@,
            *final(self) == *final(r.msg),
    {
        DeviceQueryMut::new(self)
    }

    pub fn device_id(&self) -> (r: &str)
        ensures
            r@ == self@.device_id,
    {
        self.device_id.as_str()
    }

    pub fn set_device_id(&mut self, val: &str)
        ensures
            final(self)@ == (DeviceQueryModel { device_id: val@, ..old(self)@ }),
    {
        self.device_id = val.to_owned();
    }

    pub fn capabilities(&self) -> (r: &[DeviceCapability])
        ensures
            r@ == self@.capabilities,
    {
        self.capabilities.as_slice()
    }

    pub fn capabilities_mut(&mut self) -> (r: &mut Vec<DeviceCapability>)
        ensures
            (*r)@ == old(self)@.capabilities,
            final(self)@ == (DeviceQueryModel { capabilities: (*final(r))@, ..old(self)@ }),
    {
        &mut self.capabilities
    }

    pub fn set_capabilities(&mut self, src: Vec<DeviceCapability>)
        ensures
            final(self)@ == (DeviceQueryModel { capabilities: src@, ..old(self)@ }),
    {
        self.capabilities = src;
    }
}

impl Clone for DeviceQuery {
    fn clone(&self) -> (r: Self)
        ensures
            r@ == self@,
    {
        let r = DeviceQuery {
            device_id: self.device_id.clone(),
            capabilities: copy_items(self.capabilities.as_slice()),
            unknown: self.unknown.copy(),
        };
        r
    }
}

impl Default for DeviceQuery {
    fn default() -> (r: Self)
        ensures
            r@ == DeviceQueryModel::empty(),
    {
        Self::new()
    }
}

/// Read access to a `DeviceQuery`; the default view reads as the empty message.
#[derive(Clone, Copy)]
pub struct DeviceQueryView<'msg> {
    msg: Option<&'msg DeviceQuery>,
}

impl<'msg> View for DeviceQueryView<'msg> {
    type V = DeviceQueryModel;

    closed spec fn view(&self) -> DeviceQueryModel {
        match self.msg {
            Some(m) => m@,
            None => DeviceQueryModel::empty(),
        }
    }
}

impl<'msg> DeviceQueryView<'msg> {
    pub fn new(msg: &'msg DeviceQuery) -> (r: Self)
        ensures
            r@ == msg@,
    {
        DeviceQueryView { msg: Some(msg) }
    }

    /// An owned copy of the message.
    pub fn to_owned(&self) -> (r: DeviceQuery)
        ensures
            r@ == self@,
    {
        match self.msg {
            Some(m) => m.clone(),
            None => DeviceQuery::new(),
        }
    }

    /// The wire form, refused when it is longer than `i32::MAX` bytes. The
    /// message is well formed, so the wire form reads back as the message.
    pub fn serialize(&self) -> (r: Result<Vec<u8>, protobuf::SerializeError>)
        ensures
            match r {
                Ok(bytes) => bytes@ == self@.encode() && self@.encode().len() <= 0x7fff_ffff,
                Err(_) => self@.encode().len() > 0x7fff_ffff,
            },
            self@.well_formed(),
            self@.encode().len() <= size_limit() ==> merge_message::<DeviceQuery>(
                DeviceQueryModel::empty(),
                self@.encode(),
                group_depth_limit(),
            ) == Some(self@),
    {
        match self.msg {
            Some(m) => m.serialize(),
            None => DeviceQuery::new().serialize(),
        }
    }

    pub fn device_id(self) -> (r: &'msg str)
        ensures
            r@ == self@.device_id,
    {
        match self.msg {
            Some(m) => m.device_id.as_str(),
            None => {
                proof {
                    reveal_strlit("");
                }
                ""
            },
        }
    }

    pub fn capabilities(self) -> (r: &'msg [DeviceCapability])
        ensures
            r@ == self@.capabilities,
    {
        match self.msg {
            Some(m) => m.capabilities.as_slice(),
            None => {
                &[]
            },
        }
    }
}

impl<'msg> Default for DeviceQueryView<'msg> {
    fn default() -> (r: Self)
        ensures
            r@ == DeviceQueryModel::empty(),
    {
        DeviceQueryView { msg: None }
    }
}

/// Write access to a `DeviceQuery` held elsewhere.
pub struct DeviceQueryMut<'msg> {
    /// The message written through this handle.
    pub msg: &'msg mut DeviceQuery,
}

impl<'msg> View for DeviceQueryMut<'msg> {
    type V = DeviceQueryModel;

    open spec fn view(&self) -> DeviceQueryModel {
        (*self.msg)@
    }
}

impl<'msg> DeviceQueryMut<'msg> {
    pub fn new(msg: &'msg mut DeviceQuery) -> (r: Self)
        ensures
            r@ == old(msg)@,
            *final(msg) == *final(r.msg),
    {
        DeviceQueryMut { msg }
    }

    /// An owned copy of the message.
    pub fn to_owned(&self) -> (r: DeviceQuery)
        ensures
            r@ == self@,
    {
        self.msg.clone()
    }

    pub fn as_view(&self) -> (r: DeviceQueryView<'_>)
        ensures
            r@ == self@,
    {
        DeviceQueryView::new(self.msg)
    }

    /// The wire form, refused when it is longer than `i32::MAX` bytes. The
    /// message is well formed, so the wire form reads back as the message.
    pub fn serialize(&self) -> (r: Result<Vec<u8>, protobuf::SerializeError>)
        ensures
            match r {
                Ok(bytes) => bytes@ == self@.encode() && self@.encode().len() <= 0x7fff_ffff,
                Err(_) => self@.encode().len() > 0x7fff_ffff,
            },
            self@.well_formed(),
            self@.encode().len() <= size_limit() ==> merge_message::<DeviceQuery>(
                DeviceQueryModel::empty(),
                self@.encode(),
                group_depth_limit(),
            ) == Some(self@),
    {
        self.msg.serialize()
    }

    /// Resets every field to its default.
    pub fn clear(&mut self)
        ensures
            final(self)@ == DeviceQueryModel::empty(),
            *final(final(self).msg) == *final(old(self).msg),
    {
        self.msg.clear();
    }

    /// Replaces the message by the one `data` encodes.
    pub fn clear_and_parse(&mut self, data: &[u8]) -> (r: Result<(), protobuf::ParseError>)
        ensures
            match merge_message::<DeviceQuery>(DeviceQueryModel::empty(), data@, group_depth_limit()) {
                Some(m) => r is Ok && final(self)@ == m && m.well_formed(),
                None => r is Err,
            },
            *final(final(self).msg) == *final(old(self).msg),
    {
        self.msg.clear_and_parse(data)
    }

    /// Replaces the message by the one `data` encodes.
    pub fn clear_and_parse_dont_enforce_required(&mut self, data: &[u8]) -> (r: Result<(), protobuf::ParseError>)
        ensures
            match merge_message::<DeviceQuery>(DeviceQueryModel::empty(), data@, group_depth_limit()) {
                Some(m) => r is Ok && final(self)@ == m && m.well_formed(),
                None => r is Err,
            },
            *final(final(self).msg) == *final(old(self).msg),
    {
        self.msg.clear_and_parse_dont_enforce_required(data)
    }

    /// Makes the message a copy of `src`.
    pub fn copy_from(&mut self, src: DeviceQueryView<'_>)
        ensures
            final(self)@ == src@,
            *final(final(self).msg) == *final(old(self).msg),
    {
        self.msg.copy_from(src);
    }

    /// Merges `src` into the message.
    pub fn merge_from(&mut self, src: DeviceQueryView<'_>)
        ensures
            final(self)@ == old(self)@.merge(src@),
            *final(final(self).msg) == *final(old(self).msg),
    {
        self.msg.merge_from(src);
    }

    pub fn device_id(&self) -> (r: &str)
        ensures
            r@ == self@.device_id,
    {
        self.msg.device_id()
    }

    pub fn set_device_id(&mut self, val: &str)
        ensures
            final(self)@ == (DeviceQueryModel { device_id: val@, ..old(self)@ }),
            *final(final(self).msg) == *final(old(self).msg),
    {
        self.msg.set_device_id(val);
    }

    pub fn capabilities(&self) -> (r: &[DeviceCapability])
        ensures
            r@ == self@.capabilities,
    {
        self.msg.capabilities()
    }

    pub fn capabilities_mut(&mut self) -> (r: &mut Vec<DeviceCapability>)
        ensures
            (*r)@ == old(self)@.capabilities,
            final(self)@ == (DeviceQueryModel { capabilities: (*final(r))@, ..old(self)@ }),
            *final(final(self).msg) == *final(old(self).msg),
    {
        self.msg.capabilities_mut()
    }

    pub fn set_capabilities(&mut self, src: Vec<DeviceCapability>)
        ensures
            final(self)@ == (DeviceQueryModel { capabilities: src@, ..old(self)@ }),
            *final(final(self).msg) == *final(old(self).msg),
    {
        self.msg.set_capabilities(src);
    }
}

/// The content of a `DeviceQueryResponse`.
pub struct DeviceQueryResponseModel {
    pub device: Option<DeviceBroadcastModel>,
    pub is_online: bool,
    pub last_seen: u64,
    /// The fields read but not understood, as they came, in order.
    pub unknown: Seq<u8>,
}

impl DeviceQueryResponseModel {
    /// The message with every field at its default.
    pub open spec fn empty() -> Self {
        DeviceQueryResponseModel {
            device: None,
            is_online: false,
            last_seen: 0,
            unknown: Seq::empty(),
        }
    }

    /// The wire form: fields in number order, defaults and absent
    /// sub-messages left out, then the unknown fields as they came.
    #[verifier::opaque]
    pub open spec fn encode(self) -> Seq<u8> {
        optional_message(1, match self.device {
            Some(x) => Some(x.encode()),
            None => None,
        })
            + varint_field(2, if self.is_online { 1 } else { 0 })
            + varint_field(3, self.last_seen)
            + self.unknown
    }

    /// Whether a field is kept, as it came, among the unknown fields: its
    /// number is not one of this message's, or it comes with another wire
    /// type than its field is written with.
    pub open spec fn keeps_unknown(field: nat, value: WireValue) -> bool {
        if field == 1 {
            !(value is Delimited)
        } else if field == 2 {
            !(value is Varint)
        } else if field == 3 {
            !(value is Varint)
        } else {
            true
        }
    }

    /// `keeps_unknown` as a function.
    pub open spec fn keeps() -> spec_fn(nat, WireValue) -> bool {
        |field: nat, value: WireValue| DeviceQueryResponseModel::keeps_unknown(field, value)
    }

    /// How one field of the wire form changes the message; `raw` is the
    /// field as it came. `None` when the field's content is malformed.
    #[verifier::opaque]
    pub open spec fn apply(self, field: nat, value: WireValue, raw: Seq<u8>, depth: nat) -> Option<Self> {
        if Self::keeps_unknown(field, value) {
            Some(DeviceQueryResponseModel { unknown: self.unknown + raw, ..self })
        } else if field == 1 {
            match value {
                WireValue::Delimited(b) => if depth == 0 {
                    None
                } else {
                    match merge_message::<DeviceBroadcast>(
                        match self.device {
                            Some(x) => x,
                            None => DeviceBroadcastModel::empty(),
                        },
                        b,
                        (depth - 1) as nat,
                    ) {
                        Some(x) => Some(DeviceQueryResponseModel { device: Some(x), ..self }),
                        None => None,
                    }
                },
                _ => Some(self),
            }
        } else if field == 2 {
            match value {
                WireValue::Varint(v) => Some(DeviceQueryResponseModel { is_online: v != 0, ..self }),
                _ => Some(self),
            }
        } else if field == 3 {
            match value {
                WireValue::Varint(v) => Some(DeviceQueryResponseModel { last_seen: v, ..self }),
                _ => Some(self),
            }
        } else {
            Some(self)
        }
    }

    /// `other` merged into this message, as protobuf merges: a scalar, string
    /// or bytes field set in `other` replaces the one here, repeated fields
    /// are appended, sub-messages are merged, map entries inserted and
    /// unknown fields appended.
    #[verifier::opaque]
    pub open spec fn merge(self, other: Self) -> Self {
        DeviceQueryResponseModel {
            device: match other.device {
                Some(x) => Some(match self.device {
                    Some(y) => y.merge(x),
                    None => DeviceBroadcastModel::empty().merge(x),
                }),
                None => self.device,
            },
            is_online: if other.is_online { true } else { self.is_online },
            last_seen: if other.last_seen != 0 { other.last_seen } else { self.last_seen },
            unknown: self.unknown + other.unknown,
        }
    }

    /// What writing the message out and reading it back relies on: the
    /// unknown fields are whole fields this message does not read, and
    /// the same holds of every sub-message.
    pub open spec fn well_formed(self) -> bool {
        &&& unknown_fields::<DeviceQueryResponse>(self.unknown, group_depth_limit())
        &&& match self.device {
            Some(x) => x.well_formed(),
            None => true,
        }
    }

    /// What reading the wire form back with `depth` levels of nesting left
    /// relies on: the message is well formed, its unknown fields read as
    /// whole fields with `depth` levels, and each sub-message reads back
    /// with one level less.
    pub open spec fn well_formed_at(self, depth: nat) -> bool {
        &&& self.well_formed()
        &&& unknown_fields::<DeviceQueryResponse>(self.unknown, depth)
        &&& match self.device {
            Some(x) => depth >= 1 && x.well_formed_at((depth - 1) as nat),
            None => true,
        }
    }
}

/// Reading the `device` field as `b` writes it merges it into `m`.
proof fn lemma_device_query_response_read_device(m: DeviceQueryResponseModel, b: DeviceQueryResponseModel, rest: Seq<u8>, depth: nat)
    requires
        optional_message(1, match b.device {
            Some(x) => Some(x.encode()),
            None => None,
        }).len() <= size_limit(),
        b.well_formed_at(depth),
    ensures
        merge_message::<DeviceQueryResponse>(m, optional_message(1, match b.device {
            Some(x) => Some(x.encode()),
            None => None,
        }) + rest, depth) == merge_message::<DeviceQueryResponse>(
            DeviceQueryResponseModel { device: match b.device {
                Some(x) => Some(match m.device {
                    Some(y) => y.merge(x),
                    None => DeviceBroadcastModel::empty().merge(x),
                }),
                None => m.device,
            }, ..m },
            rest,
            depth,
        ),
{
    let next = DeviceQueryResponseModel { device: match b.device {
        Some(x) => Some(match m.device {
            Some(y) => y.merge(x),
            None => DeviceBroadcastModel::empty().merge(x),
        }),
        None => m.device,
    }, ..m };
    reveal(DeviceQueryResponseModel::apply);
    match b.device {
        Some(x) => {
            let sub = match m.device {
                Some(y) => y,
                None => DeviceBroadcastModel::empty(),
            };
            lemma_device_broadcast_merge_wire(sub, x, (depth - 1) as nat);
            lemma_merge_delimited::<DeviceQueryResponse>(m, 1, x.encode(), rest, next, depth);
        },
        None => {
            assert(optional_message(1, match b.device {
            Some(x) => Some(x.encode()),
            None => None,
        }) + rest =~= rest);
        },
    }
}

/// Reading the `is_online` field as `b` writes it merges it into `m`.
proof fn lemma_device_query_response_read_is_online(m: DeviceQueryResponseModel, b: DeviceQueryResponseModel, rest: Seq<u8>, depth: nat)
    requires
        varint_field(2, if b.is_online { 1 } else { 0 }).len() <= size_limit(),
    ensures
        merge_message::<DeviceQueryResponse>(m, varint_field(2, if b.is_online { 1 } else { 0 }) + rest, depth) == merge_message::<DeviceQueryResponse>(
            DeviceQueryResponseModel { is_online: if b.is_online { true } else { m.is_online }, ..m },
            rest,
            depth,
        ),
{
    let next = DeviceQueryResponseModel { is_online: if b.is_online { true } else { m.is_online }, ..m };
    reveal(DeviceQueryResponseModel::apply);
    lemma_merge_varint_field::<DeviceQueryResponse>(m, 2, if b.is_online { 1 } else { 0 }, rest, next, depth);
}

/// Reading the `last_seen` field as `b` writes it merges it into `m`.
proof fn lemma_device_query_response_read_last_seen(m: DeviceQueryResponseModel, b: DeviceQueryResponseModel, rest: Seq<u8>, depth: nat)
    requires
        varint_field(3, b.last_seen).len() <= size_limit(),
    ensures
        merge_message::<DeviceQueryResponse>(m, varint_field(3, b.last_seen) + rest, depth) == merge_message::<DeviceQueryResponse>(
            DeviceQueryResponseModel { last_seen: if b.last_seen != 0 { b.last_seen } else { m.last_seen }, ..m },
            rest,
            depth,
        ),
{
    let next = DeviceQueryResponseModel { last_seen: if b.last_seen != 0 { b.last_seen } else { m.last_seen }, ..m };
    reveal(DeviceQueryResponseModel::apply);
    lemma_merge_varint_field::<DeviceQueryResponse>(m, 3, b.last_seen, rest, next, depth);
}

/// Reading the unknown fields as `b` writes them adds them to those of `m`.
proof fn lemma_device_query_response_read_unknown(m: DeviceQueryResponseModel, b: DeviceQueryResponseModel, rest: Seq<u8>, depth: nat)
    requires
        b.unknown.len() <= size_limit(),
        b.well_formed_at(depth),
    ensures
        merge_message::<DeviceQueryResponse>(m, b.unknown + rest, depth) == merge_message::<DeviceQueryResponse>(
            DeviceQueryResponseModel { unknown: m.unknown + b.unknown, ..m },
            rest,
            depth,
        ),
{
    lemma_merge_unknown::<DeviceQueryResponse>(m, b.unknown, rest, depth);
}

/// Reading the wire form of `b` into `a`, with `depth` levels of nesting left,
/// gives `b` merged into `a`.
pub proof fn lemma_device_query_response_merge_wire(a: DeviceQueryResponseModel, b: DeviceQueryResponseModel, depth: nat)
    requires
        b.encode().len() <= size_limit(),
        b.well_formed_at(depth),
    ensures
        merge_message::<DeviceQueryResponse>(a, b.encode(), depth) == Some(a.merge(b)),
{
    let c1 = optional_message(1, match b.device {
        Some(x) => Some(x.encode()),
        None => None,
    });
    let c2 = varint_field(2, if b.is_online { 1 } else { 0 });
    let c3 = varint_field(3, b.last_seen);
    let c4 = b.unknown;
    assert(b.encode() == c1 + c2 + c3 + c4) by {
        reveal(DeviceQueryResponseModel::encode);
    }
    let m0 = a;
    let m1 = DeviceQueryResponseModel { device: match b.device {
        Some(x) => Some(match m0.device {
            Some(y) => y.merge(x),
            None => DeviceBroadcastModel::empty().merge(x),
        }),
        None => m0.device,
    }, ..m0 };
    lemma_device_query_response_read_device(m0, b, Seq::empty(), depth);
    assert(c1 + Seq::empty() =~= c1);
    lemma_merge_nothing::<DeviceQueryResponse>(m1, depth);
    let m2 = DeviceQueryResponseModel { is_online: if b.is_online { true } else { m1.is_online }, ..m1 };
    lemma_device_query_response_read_is_online(m1, b, Seq::empty(), depth);
    assert(c2 + Seq::empty() =~= c2);
    lemma_merge_nothing::<DeviceQueryResponse>(m2, depth);
    lemma_merge_concat::<DeviceQueryResponse>(a, c1, c2, depth);
    let m3 = DeviceQueryResponseModel { last_seen: if b.last_seen != 0 { b.last_seen } else { m2.last_seen }, ..m2 };
    lemma_device_query_response_read_last_seen(m2, b, Seq::empty(), depth);
    assert(c3 + Seq::empty() =~= c3);
    lemma_merge_nothing::<DeviceQueryResponse>(m3, depth);
    lemma_merge_concat::<DeviceQueryResponse>(a, c1 + c2, c3, depth);
    let m4 = DeviceQueryResponseModel { unknown: m3.unknown + b.unknown, ..m3 };
    lemma_device_query_response_read_unknown(m3, b, Seq::empty(), depth);
    assert(c4 + Seq::empty() =~= c4);
    lemma_merge_nothing::<DeviceQueryResponse>(m4, depth);
    lemma_merge_concat::<DeviceQueryResponse>(a, c1 + c2 + c3, c4, depth);
    assert(m4 == a.merge(b)) by {
        reveal(DeviceQueryResponseModel::merge);
    }
}

/// Merging the empty message changes nothing.
pub proof fn lemma_device_query_response_merge_empty(a: DeviceQueryResponseModel)
    ensures
        a.merge(DeviceQueryResponseModel::empty()) == a,
{
    reveal(DeviceQueryResponseModel::merge);
    assert(a.unknown + Seq::empty() =~= a.unknown);
    assert(a.merge(DeviceQueryResponseModel::empty()) =~= a);
}

/// Merging a message into the empty one gives that message.
pub proof fn lemma_device_query_response_empty_merge(b: DeviceQueryResponseModel)
    requires
        b.well_formed(),
    ensures
        DeviceQueryResponseModel::empty().merge(b) == b,
{
    reveal(DeviceQueryResponseModel::merge);
    if let Some(x) = b.device {
        lemma_device_broadcast_empty_merge(x);
    }
    assert(Seq::empty() + b.unknown =~= b.unknown);
    assert(DeviceQueryResponseModel::empty().merge(b) =~= b);
}

/// Writing a message out and reading it back, with `depth` levels of
/// nesting left (`group_depth_limit()` for a message read on its own),
/// gives the same message.
pub proof fn lemma_device_query_response_roundtrip(m: DeviceQueryResponseModel, depth: nat)
    requires
        m.encode().len() <= size_limit(),
        m.well_formed_at(depth),
    ensures
        merge_message::<DeviceQueryResponse>(DeviceQueryResponseModel::empty(), m.encode(), depth) == Some(m),
{
    lemma_device_query_response_merge_wire(DeviceQueryResponseModel::empty(), m, depth);
    lemma_device_query_response_empty_merge(m);
}

/// Reading two encoded messages written one after the other, with `depth`
/// levels of nesting left, gives the second merged into the first.
pub proof fn lemma_device_query_response_concat(a: DeviceQueryResponseModel, b: DeviceQueryResponseModel, depth: nat)
    requires
        a.encode().len() <= size_limit(),
        b.encode().len() <= size_limit(),
        a.well_formed_at(depth),
        b.well_formed_at(depth),
    ensures
        merge_message::<DeviceQueryResponse>(DeviceQueryResponseModel::empty(), a.encode() + b.encode(), depth) == Some(a.merge(b)),
{
    lemma_device_query_response_roundtrip(a, depth);
    lemma_merge_concat::<DeviceQueryResponse>(DeviceQueryResponseModel::empty(), a.encode(), b.encode(), depth);
    lemma_device_query_response_merge_wire(a, b, depth);
}

/// Merging two well-formed messages gives a well-formed message.
pub proof fn lemma_device_query_response_merge_well_formed(a: DeviceQueryResponseModel, b: DeviceQueryResponseModel)
    requires
        a.well_formed(),
        b.well_formed(),
    ensures
        a.merge(b).well_formed(),
{
    reveal(DeviceQueryResponseModel::merge);
    lemma_unknown_fields_concat::<DeviceQueryResponse>(a.unknown, b.unknown, group_depth_limit());
    if let Some(x) = b.device {
        match a.device {
            Some(y) => lemma_device_broadcast_merge_well_formed(y, x),
            None => lemma_device_broadcast_merge_well_formed(DeviceBroadcastModel::empty(), x),
        }
    }
}

/// Reading one whole field into a well-formed message keeps it well formed.
proof fn lemma_device_query_response_apply_well_formed(m: DeviceQueryResponseModel, field: nat, value: WireValue, raw: Seq<u8>, depth: nat)
    requires
        m.well_formed(),
        depth <= group_depth_limit(),
        decode_field(raw, depth) == Some((field, value, raw.len())),
        m.apply(field, value, raw, depth) is Some,
    ensures
        m.apply(field, value, raw, depth)->0.well_formed(),
{
    reveal(DeviceQueryResponseModel::apply);
    if DeviceQueryResponseModel::keeps_unknown(field, value) {
        lemma_decode_field_deeper(raw, depth, group_depth_limit());
        lemma_unknown_field::<DeviceQueryResponse>(raw, field, value, group_depth_limit());
        lemma_unknown_fields_concat::<DeviceQueryResponse>(m.unknown, raw, group_depth_limit());
    } else if field == 1 {
        if let WireValue::Delimited(b) = value {
            let sub = match m.device {
                Some(x) => x,
                None => DeviceBroadcastModel::empty(),
            };
            lemma_device_broadcast_parse_well_formed(sub, b, (depth - 1) as nat);
        }
    }
}

/// Reading whole fields into a well-formed message, with at most
/// `group_depth_limit()` levels of nesting left, keeps it well formed.
pub proof fn lemma_device_query_response_parse_well_formed(m: DeviceQueryResponseModel, s: Seq<u8>, depth: nat)
    requires
        m.well_formed(),
        depth <= group_depth_limit(),
        merge_message::<DeviceQueryResponse>(m, s, depth) is Some,
    ensures
        merge_message::<DeviceQueryResponse>(m, s, depth)->0.well_formed(),
{
    assert forall|x: DeviceQueryResponseModel, field: nat, value: WireValue, raw: Seq<u8>|
        x.well_formed() && decode_field(raw, depth) == Some((field, value, raw.len())) && #[trigger] DeviceQueryResponse::apply_wire(
            x,
            field,
            value,
            raw,
            depth,
        ) is Some implies DeviceQueryResponse::apply_wire(x, field, value, raw, depth)->0.well_formed() by {
        lemma_device_query_response_apply_well_formed(x, field, value, raw, depth);
    }
    lemma_merge_preserves::<DeviceQueryResponse>(m, s, |x: DeviceQueryResponseModel| x.well_formed(), depth);
}

/// The answer to a `DeviceQuery`.
pub struct DeviceQueryResponse {
    device: Option<DeviceBroadcast>,
    is_online: bool,
    last_seen: u64,
    unknown: DeviceQueryResponseUnknown,
}

impl View for DeviceQueryResponse {
    type V = DeviceQueryResponseModel;

    closed spec fn view(&self) -> DeviceQueryResponseModel {
        DeviceQueryResponseModel {
            device: match self.device {
                Some(x) => Some(x@),
                None => None,
            },
            is_online: self.is_online,
            last_seen: self.last_seen,
            unknown: self.unknown@,
        }
    }
}

/// The unknown fields of a `DeviceQueryResponse`: whole fields it does not read, as they
/// came, in order.
struct DeviceQueryResponseUnknown {
    bytes: Vec<u8>,
}

impl View for DeviceQueryResponseUnknown {
    type V = Seq<u8>;

    closed spec fn view(&self) -> Seq<u8> {
        if unknown_run(self.bytes@, DeviceQueryResponseModel::keeps(), group_depth_limit()) {
            self.bytes@
        } else {
            Seq::empty()
        }
    }
}

impl DeviceQueryResponseUnknown {
    #[verifier::type_invariant]
    closed spec fn whole(self) -> bool {
        unknown_run(self.bytes@, DeviceQueryResponseModel::keeps(), group_depth_limit())
    }

    fn new() -> (r: Self)
        ensures
            r@ == Seq::<u8>::empty(),
    {
        proof {
            lemma_unknown_run_empty(DeviceQueryResponseModel::keeps(), group_depth_limit());
        }
        DeviceQueryResponseUnknown { bytes: Vec::new() }
    }

    /// Adds one whole field that the message does not read.
    fn push_field(&mut self, raw: &[u8], Ghost(field): Ghost<nat>, Ghost(value): Ghost<WireValue>)
        requires
            decode_field(raw@, group_depth_limit()) == Some((field, value, raw@.len())),
            DeviceQueryResponseModel::keeps_unknown(field, value),
        ensures
            final(self)@ == old(self)@ + raw@,
    {
        proof {
            use_type_invariant(&*self);
            lemma_unknown_run_field(raw@, field, value, DeviceQueryResponseModel::keeps(), group_depth_limit());
            lemma_unknown_run_concat(self.bytes@, raw@, DeviceQueryResponseModel::keeps(), group_depth_limit());
            lemma_unknown_run_empty(DeviceQueryResponseModel::keeps(), group_depth_limit());
        }
        let mut bytes = Vec::new();
        std::mem::swap(&mut bytes, &mut self.bytes);
        append_bytes(&mut bytes, raw);
        self.bytes = bytes;
    }

    /// Adds the unknown fields of another message of the same kind.
    fn append(&mut self, other: &Self)
        ensures
            final(self)@ == old(self)@ + other@,
    {
        proof {
            use_type_invariant(&*self);
            use_type_invariant(other);
            lemma_unknown_run_concat(self.bytes@, other.bytes@, DeviceQueryResponseModel::keeps(), group_depth_limit());
            lemma_unknown_run_empty(DeviceQueryResponseModel::keeps(), group_depth_limit());
        }
        let mut bytes = Vec::new();
        std::mem::swap(&mut bytes, &mut self.bytes);
        append_bytes(&mut bytes, other.bytes.as_slice());
        self.bytes = bytes;
    }

    fn as_slice(&self) -> (r: &[u8])
        ensures
            r@ == self@,
    {
        proof {
            use_type_invariant(self);
        }
        self.bytes.as_slice()
    }

    fn copy(&self) -> (r: Self)
        ensures
            r@ == self@,
    {
        proof {
            use_type_invariant(self);
        }
        DeviceQueryResponseUnknown { bytes: copy_bytes(self.bytes.as_slice()) }
    }
}

impl WireMessage for DeviceQueryResponse {
    open spec fn apply_wire(message: DeviceQueryResponseModel, field: nat, value: WireValue, raw: Seq<u8>, depth: nat) -> Option<DeviceQueryResponseModel> {
        message.apply(field, value, raw, depth)
    }

    open spec fn keeps_unknown(field: nat, value: WireValue) -> bool {
        DeviceQueryResponseModel::keeps_unknown(field, value)
    }

    open spec fn add_unknown(message: DeviceQueryResponseModel, raw: Seq<u8>) -> DeviceQueryResponseModel {
        DeviceQueryResponseModel { unknown: message.unknown + raw, ..message }
    }

    proof fn lemma_apply_unknown(message: DeviceQueryResponseModel, field: nat, value: WireValue, raw: Seq<u8>, depth: nat) {
        reveal(DeviceQueryResponseModel::apply);
    }

    proof fn lemma_add_unknown(message: DeviceQueryResponseModel, a: Seq<u8>, b: Seq<u8>) {
        assert(message.unknown + a + b =~= message.unknown + (a + b));
        assert(message.unknown + Seq::<u8>::empty() =~= message.unknown);
    }

    fn apply_field(
        &mut self,
        data: &[u8],
        field: u32,
        value: FieldValue,
        start: usize,
        end: usize,
        depth: u32,
    ) -> (ok: bool) {
        proof {
            reveal(DeviceQueryResponseModel::apply);
        }
        if field == 1 {
            if let FieldValue::Delimited(from, to) = value {
                if depth == 0 {
                    return false;
                }
                let mut sub = match self.device.take() {
                    Some(x) => x,
                    None => DeviceBroadcast::new(),
                };
                if !merge_bytes(&mut sub, &data[from..to], depth - 1) {
                    return false;
                }
                self.device = Some(sub);
                return true;
            }
        } else if field == 2 {
            if let FieldValue::Varint(v) = value {
                self.is_online = v != 0;
                return true;
            }
        } else if field == 3 {
            if let FieldValue::Varint(v) = value {
                self.last_seen = v;
                return true;
            }
        }
        proof {
            lemma_decode_field_deeper(data@.subrange(start as int, end as int), depth as nat, group_depth_limit());
        }
        self.unknown.push_field(&data[start..end], Ghost(field as nat), Ghost(value.wire(data@)));
        true
    }
}

/// The content of every `DeviceQueryResponse` is well formed.
pub proof fn lemma_device_query_response_well_formed(m: DeviceQueryResponse)
    ensures
        m@.well_formed(),
{
    lemma_unknown_run_fields::<DeviceQueryResponse>(m.unknown.bytes@, DeviceQueryResponseModel::keeps(), group_depth_limit());
    if let Some(x) = m.device {
        lemma_device_broadcast_well_formed(x);
    }
}

impl DeviceQueryResponse {
    /// A message with every field at its default.
    pub fn new() -> (r: Self)
        ensures
            r@ == DeviceQueryResponseModel::empty(),
    {
        let r = DeviceQueryResponse {
            device: None,
            is_online: false,
            last_seen: 0,
            unknown: DeviceQueryResponseUnknown::new(),
        };
        r
    }

    /// Reads a message from its wire form.
    pub fn parse(data: &[u8]) -> (r: Result<Self, protobuf::ParseError>)
        ensures
            match merge_message::<DeviceQueryResponse>(DeviceQueryResponseModel::empty(), data@, group_depth_limit()) {
                Some(m) => r matches Ok(msg) && msg@ == m && m.well_formed(),
                None => r is Err,
            },
    {
        proof {
            if merge_message::<DeviceQueryResponse>(DeviceQueryResponseModel::empty(), data@, group_depth_limit()) is Some {
                lemma_device_query_response_parse_well_formed(DeviceQueryResponseModel::empty(), data@, group_depth_limit());
            }
        }
        let mut msg = Self::new();
        if merge_bytes(&mut msg, data, 100) {
            Ok(msg)
        } else {
            Err(parse_error())
        }
    }

    /// Same as `parse`: the message has no required fields.
    pub fn parse_dont_enforce_required(data: &[u8]) -> (r: Result<Self, protobuf::ParseError>)
        ensures
            match merge_message::<DeviceQueryResponse>(DeviceQueryResponseModel::empty(), data@, group_depth_limit()) {
                Some(m) => r matches Ok(msg) && msg@ == m && m.well_formed(),
                None => r is Err,
            },
    {
        Self::parse(data)
    }

    /// Resets every field to its default.
    pub fn clear(&mut self)
        ensures
            final(self)@ == DeviceQueryResponseModel::empty(),
    {
        *self = DeviceQueryResponse::new();
    }

    /// Replaces the message by the one `data` encodes; on an error what the
    /// message then holds is unspecified.
    pub fn clear_and_parse(&mut self, data: &[u8]) -> (r: Result<(), protobuf::ParseError>)
        ensures
            match merge_message::<DeviceQueryResponse>(DeviceQueryResponseModel::empty(), data@, group_depth_limit()) {
                Some(m) => r is Ok && final(self)@ == m && m.well_formed(),
                None => r is Err,
            },
    {
        proof {
            if merge_message::<DeviceQueryResponse>(DeviceQueryResponseModel::empty(), data@, group_depth_limit()) is Some {
                lemma_device_query_response_parse_well_formed(DeviceQueryResponseModel::empty(), data@, group_depth_limit());
            }
        }
        *self = DeviceQueryResponse::new();
        if merge_bytes(self, data, 100) {
            Ok(())
        } else {
            Err(parse_error())
        }
    }

    /// Same as `clear_and_parse`: the message has no required fields; on an error what the
    /// message then holds is unspecified.
    pub fn clear_and_parse_dont_enforce_required(&mut self, data: &[u8]) -> (r: Result<(), protobuf::ParseError>)
        ensures
            match merge_message::<DeviceQueryResponse>(DeviceQueryResponseModel::empty(), data@, group_depth_limit()) {
                Some(m) => r is Ok && final(self)@ == m && m.well_formed(),
                None => r is Err,
            },
    {
        self.clear_and_parse(data)
    }

    /// Makes this message a copy of `src`.
    pub fn copy_from(&mut self, src: DeviceQueryResponseView<'_>)
        ensures
            final(self)@ == src@,
    {
        *self = src.to_owned();
    }

    /// Moves the content of `src` here, leaving `src` empty.
    pub fn take_from(&mut self, src: &mut DeviceQueryResponse)
        ensures
            final(self)@ == old(src)@,
            final(src)@ == DeviceQueryResponseModel::empty(),
    {
        let mut taken = DeviceQueryResponse::new();
        std::mem::swap(&mut taken, src);
        *self = taken;
    }

    /// Merges `src` into this message (see `merge` on the model).
    pub fn merge_from(&mut self, src: DeviceQueryResponseView<'_>)
        ensures
            final(self)@ == old(self)@.merge(src@),
    {
        match src.msg {
            Some(other) => self.merge_fields_from(other),
            None => {
                proof {
                    lemma_device_query_response_merge_empty(self@);
                }
            },
        }
    }

    fn merge_fields_from(&mut self, other: &DeviceQueryResponse)
        ensures
            final(self)@ == old(self)@.merge(other@),
    {
        proof {
            reveal(DeviceQueryResponseModel::merge);
        }
        let ghost start = self@;
        if let Some(x) = &other.device {
            let mut sub = match self.device.take() {
                Some(y) => y,
                None => DeviceBroadcast::new(),
            };
            sub.merge_fields_from(x);
            self.device = Some(sub);
        }
        if other.is_online {
            self.is_online = true;
        }
        if other.last_seen != 0 {
            self.last_seen = other.last_seen;
        }
        self.unknown.append(&other.unknown);
        assert(self@ =~= start.merge(other@));
    }

    /// Appends the wire form to `buf`.
    pub fn write_to(&self, buf: &mut Vec<u8>)
        ensures
            final(buf)@ == old(buf)@ + self@.encode(),
    {
        let ghost start = buf@;
        let ghost c1 = optional_message(1, match self@.device {
            Some(x) => Some(x.encode()),
            None => None,
        });
        let ghost c2 = varint_field(2, if self@.is_online { 1 } else { 0 });
        let ghost c3 = varint_field(3, self@.last_seen);
        let ghost c4 = self@.unknown;
        let ghost before0 = buf@;
        if let Some(x) = &self.device {
            let mut payload = Vec::new();
            x.write_to(&mut payload);
            assert(payload@ =~= x@.encode());
            write_delimited(buf, 1, payload.as_slice());
        }
        assert(buf@ =~= before0 + optional_message(
            1,
            match self@.device {
                Some(x) => Some(x.encode()),
                None => None,
            },
        ));
        let ghost mut written = c1;
        assert(buf@ == start + written);
        write_varint_field(buf, 2, if self.is_online { 1 } else { 0 });
        proof {
            lemma_concat_associative(start, written, c2);
            written = written + c2;
        }
        assert(buf@ == start + written);
        write_varint_field(buf, 3, self.last_seen);
        proof {
            lemma_concat_associative(start, written, c3);
            written = written + c3;
        }
        assert(buf@ == start + written);
        append_bytes(buf, self.unknown.as_slice());
        proof {
            lemma_concat_associative(start, written, c4);
            written = written + c4;
        }
        assert(buf@ == start + written);
        assert(self@.encode() == written) by {
            assert(written == c1 + c2 + c3 + c4);
            reveal(DeviceQueryResponseModel::encode);
        }
    }

    /// The wire form, refused when it is longer than `i32::MAX` bytes. The
    /// message is well formed, and when the unknown fields of its
    /// sub-messages fit in the nesting left to them the wire form reads back
    /// as the message.
    pub fn serialize(&self) -> (r: Result<Vec<u8>, protobuf::SerializeError>)
        ensures
            match r {
                Ok(bytes) => bytes@ == self@.encode() && self@.encode().len() <= 0x7fff_ffff,
                Err(_) => self@.encode().len() > 0x7fff_ffff,
            },
            self@.well_formed(),
            self@.encode().len() <= size_limit() && self@.well_formed_at(group_depth_limit())
                ==> merge_message::<DeviceQueryResponse>(DeviceQueryResponseModel::empty(), self@.encode(), group_depth_limit()) == Some(self@),
    {
        proof {
            lemma_device_query_response_well_formed(*self);
            if self@.encode().len() <= size_limit() && self@.well_formed_at(group_depth_limit()) {
                lemma_device_query_response_roundtrip(self@, group_depth_limit());
            }
        }
        let mut buf = Vec::new();
        self.write_to(&mut buf);
        assert(buf@ =~= self@.encode());
        if buf.len() > 0x7fff_ffff {
            return Err(serialize_error());
        }
        Ok(buf)
    }

    pub fn as_view(&self) -> (r: DeviceQueryResponseView<'_>)
        ensures
            r@ == self@,
    {
        DeviceQueryResponseView::new(self)
    }

    pub fn as_mut(&mut self) -> (r: DeviceQueryResponseMut<'_>)
        ensures
            r@ == old(self)@,
            *final(self) == *final(r.msg),
    {
        DeviceQueryResponseMut::new(self)
    }

    pub fn has_device(&self) -> (r: bool)
        ensures
            r == (self@.device is Some),
    {
        self.device.is_some()
    }

    pub fn clear_device(&mut self)
        ensures
            final(self)@ == (DeviceQueryResponseModel { device: None, ..old(self)@ }),
    {
        self.device = None;
    }

    pub fn device_opt(&self) -> (r: Option<DeviceBroadcastView<'_>>)
        ensures
            match self@.device {
                Some(x) => r matches Some(v) && v@ == x,
                None => r is None,
            },
    {
        match &self.device {
            Some(x) => Some(DeviceBroadcastView::new(x)),
            None => None,
        }
    }

    /// The sub-message, or the empty one when `device` is not set.
    pub fn device(&self) -> (r: DeviceBroadcastView<'_>)
        ensures
            r@ == match self@.device {
                Some(x) => x,
                None => DeviceBroadcastModel::empty(),
            },
    {
        match &self.device {
            Some(x) => DeviceBroadcastView::new(x),
            None => DeviceBroadcastView::default(),
        }
    }

    /// Write access to the sub-message; sets `device` to the empty one first
    /// when it is not set.
    pub fn device_mut(&mut self) -> (r: DeviceBroadcastMut<'_>)
        ensures
            r@ == match old(self)@.device {
                Some(x) => x,
                None => DeviceBroadcastModel::empty(),
            },
            final(self)@ == (DeviceQueryResponseModel { device: Some((*final(r.msg))@), ..old(self)@ }),
    {
        if self.device.is_none() {
            self.device = Some(DeviceBroadcast::new());
        }
        DeviceBroadcastMut::new(self.device.as_mut().unwrap())
    }

    pub fn set_device(&mut self, val: DeviceBroadcast)
        ensures
            final(self)@ == (DeviceQueryResponseModel { device: Some(val@), ..old(self)@ }),
    {
        self.device = Some(val);
    }

    pub fn is_online(&self) -> (r: bool)
        ensures
            r == self@.is_online,
    {
        self.is_online
    }

    pub fn set_is_online(&mut self, val: bool)
        ensures
            final(self)@ == (DeviceQueryResponseModel { is_online: val, ..old(self)@ }),
    {
        self.is_online = val;
    }

    pub fn last_seen(&self) -> (r: u64)
        ensures
            r == self@.last_seen,
    {
        self.last_seen
    }

    pub fn set_last_seen(&mut self, val: u64)
        ensures
            final(self)@ == (DeviceQueryResponseModel { last_seen: val, ..old(self)@ }),
    {
        self.last_seen = val;
    }
}

impl Clone for DeviceQueryResponse {
    fn clone(&self) -> (r: Self)
        ensures
            r@ == self@,
    {
        let r = DeviceQueryResponse {
            device: match &self.device {
                Some(x) => Some(x.clone()),
                None => None,
            },
            is_online: self.is_online,
            last_seen: self.last_seen,
            unknown: self.unknown.copy(),
        };
        assert(r@.device == self@.device);
        r
    }
}

impl Default for DeviceQueryResponse {
    fn default() -> (r: Self)
        ensures
            r@ == DeviceQueryResponseModel::empty(),
    {
        Self::new()
    }
}

/// Read access to a `DeviceQueryResponse`; the default view reads as the empty message.
#[derive(Clone, Copy)]
pub struct DeviceQueryResponseView<'msg> {
    msg: Option<&'msg DeviceQueryResponse>,
}

impl<'msg> View for DeviceQueryResponseView<'msg> {
    type V = DeviceQueryResponseModel;

    closed spec fn view(&self) -> DeviceQueryResponseModel {
        match self.msg {
            Some(m) => m@,
            None => DeviceQueryResponseModel::empty(),
        }
    }
}

impl<'msg> DeviceQueryResponseView<'msg> {
    pub fn new(msg: &'msg DeviceQueryResponse) -> (r: Self)
        ensures
            r@ == msg@,
    {
        DeviceQueryResponseView { msg: Some(msg) }
    }

    /// An owned copy of the message.
    pub fn to_owned(&self) -> (r: DeviceQueryResponse)
        ensures
            r@ == self@,
    {
        match self.msg {
            Some(m) => m.clone(),
            None => DeviceQueryResponse::new(),
        }
    }

    /// The wire form, refused when it is longer than `i32::MAX` bytes. The
    /// message is well formed, and when the unknown fields of its
    /// sub-messages fit in the nesting left to them the wire form reads back
    /// as the message.
    pub fn serialize(&self) -> (r: Result<Vec<u8>, protobuf::SerializeError>)
        ensures
            match r {
                Ok(bytes) => bytes@ == self@.encode() && self@.encode().len() <= 0x7fff_ffff,
                Err(_) => self@.encode().len() > 0x7fff_ffff,
            },
            self@.well_formed(),
            self@.encode().len() <= size_limit() && self@.well_formed_at(group_depth_limit())
                ==> merge_message::<DeviceQueryResponse>(DeviceQueryResponseModel::empty(), self@.encode(), group_depth_limit()) == Some(self@),
    {
        match self.msg {
            Some(m) => m.serialize(),
            None => DeviceQueryResponse::new().serialize(),
        }
    }

    pub fn has_device(self) -> (r: bool)
        ensures
            r == (self@.device is Some),
    {
        match self.msg {
            Some(m) => m.device.is_some(),
            None => false,
        }
    }

    pub fn device_opt(self) -> (r: Option<DeviceBroadcastView<'msg>>)
        ensures
            match self@.device {
                Some(x) => r matches Some(v) && v@ == x,
                None => r is None,
            },
    {
        match self.msg {
            Some(m) => match &m.device {
                Some(x) => Some(DeviceBroadcastView::new(x)),
                None => None,
            },
            None => None,
        }
    }

    /// The sub-message, or the empty one when `device` is not set.
    pub fn device(self) -> (r: DeviceBroadcastView<'msg>)
        ensures
            r@ == match self@.device {
                Some(x) => x,
                None => DeviceBroadcastModel::empty(),
            },
    {
        match self.msg {
            Some(m) => match &m.device {
                Some(x) => DeviceBroadcastView::new(x),
                None => DeviceBroadcastView::default(),
            },
            None => DeviceBroadcastView::default(),
        }
    }

    pub fn is_online(self) -> (r: bool)
        ensures
            r == self@.is_online,
    {
        match self.msg {
            Some(m) => m.is_online,
            None => false,
        }
    }

    pub fn last_seen(self) -> (r: u64)
        ensures
            r == self@.last_seen,
    {
        match self.msg {
            Some(m) => m.last_seen,
            None => 0,
        }
    }
}

impl<'msg> Default for DeviceQueryResponseView<'msg> {
    fn default() -> (r: Self)
        ensures
            r@ == DeviceQueryResponseModel::empty(),
    {
        DeviceQueryResponseView { msg: None }
    }
}

/// Write access to a `DeviceQueryResponse` held elsewhere.
pub struct DeviceQueryResponseMut<'msg> {
    /// The message written through this handle.
    pub msg: &'msg mut DeviceQueryResponse,
}

impl<'msg> View for DeviceQueryResponseMut<'msg> {
    type V = DeviceQueryResponseModel;

    open spec fn view(&self) -> DeviceQueryResponseModel {
        (*self.msg)@
    }
}

impl<'msg> DeviceQueryResponseMut<'msg> {
    pub fn new(msg: &'msg mut DeviceQueryResponse) -> (r: Self)
        ensures
            r@ == old(msg)@,
            *final(msg) == *final(r.msg),
    {
        DeviceQueryResponseMut { msg }
    }

    /// An owned copy of the message.
    pub fn to_owned(&self) -> (r: DeviceQueryResponse)
        ensures
            r@ == self@,
    {
        self.msg.clone()
    }

    pub fn as_view(&self) -> (r: DeviceQueryResponseView<'_>)
        ensures
            r@ == self@,
    {
        DeviceQueryResponseView::new(self.msg)
    }

    /// The wire form, refused when it is longer than `i32::MAX` bytes. The
    /// message is well formed, and when the unknown fields of its
    /// sub-messages fit in the nesting left to them the wire form reads back
    /// as the message.
    pub fn serialize(&self) -> (r: Result<Vec<u8>, protobuf::SerializeError>)
        ensures
            match r {
                Ok(bytes) => bytes@ == self@.encode() && self@.encode().len() <= 0x7fff_ffff,
                Err(_) => self@.encode().len() > 0x7fff_ffff,
            },
            self@.well_formed(),
            self@.encode().len() <= size_limit() && self@.well_formed_at(group_depth_limit())
                ==> merge_message::<DeviceQueryResponse>(DeviceQueryResponseModel::empty(), self@.encode(), group_depth_limit()) == Some(self@),
    {
        self.msg.serialize()
    }

    /// Resets every field to its default.
    pub fn clear(&mut self)
        ensures
            final(self)@ == DeviceQueryResponseModel::empty(),
            *final(final(self).msg) == *final(old(self).msg),
    {
        self.msg.clear();
    }

    /// Replaces the message by the one `data` encodes.
    pub fn clear_and_parse(&mut self, data: &[u8]) -> (r: Result<(), protobuf::ParseError>)
        ensures
            match merge_message::<DeviceQueryResponse>(DeviceQueryResponseModel::empty(), data@, group_depth_limit()) {
                Some(m) => r is Ok && final(self)@ == m && m.well_formed(),
                None => r is Err,
            },
            *final(final(self).msg) == *final(old(self).msg),
    {
        self.msg.clear_and_parse(data)
    }

    /// Replaces the message by the one `data` encodes.
    pub fn clear_and_parse_dont_enforce_required(&mut self, data: &[u8]) -> (r: Result<(), protobuf::ParseError>)
        ensures
            match merge_message::<DeviceQueryResponse>(DeviceQueryResponseModel::empty(), data@, group_depth_limit()) {
                Some(m) => r is Ok && final(self)@ == m && m.well_formed(),
                None => r is Err,
            },
            *final(final(self).msg) == *final(old(self).msg),
    {
        self.msg.clear_and_parse_dont_enforce_required(data)
    }

    /// Makes the message a copy of `src`.
    pub fn copy_from(&mut self, src: DeviceQueryResponseView<'_>)
        ensures
            final(self)@ == src@,
            *final(final(self).msg) == *final(old(self).msg),
    {
        self.msg.copy_from(src);
    }

    /// Merges `src` into the message.
    pub fn merge_from(&mut self, src: DeviceQueryResponseView<'_>)
        ensures
            final(self)@ == old(self)@.merge(src@),
            *final(final(self).msg) == *final(old(self).msg),
    {
        self.msg.merge_from(src);
    }

    pub fn has_device(&self) -> (r: bool)
        ensures
            r == (self@.device is Some),
    {
        self.msg.has_device()
    }

    pub fn clear_device(&mut self)
        ensures
            final(self)@ == (DeviceQueryResponseModel { device: None, ..old(self)@ }),
            *final(final(self).msg) == *final(old(self).msg),
    {
        self.msg.clear_device();
    }

    pub fn device_opt(&self) -> (r: Option<DeviceBroadcastView<'_>>)
        ensures
            match self@.device {
                Some(x) => r matches Some(v) && v@ == x,
                None => r is None,
            },
    {
        self.msg.device_opt()
    }

    /// The sub-message, or the empty one when `device` is not set.
    pub fn device(&self) -> (r: DeviceBroadcastView<'_>)
        ensures
            r@ == match self@.device {
                Some(x) => x,
                None => DeviceBroadcastModel::empty(),
            },
    {
        self.msg.device()
    }

    /// Write access to the sub-message; sets `device` to the empty one first
    /// when it is not set.
    pub fn device_mut(&mut self) -> (r: DeviceBroadcastMut<'_>)
        ensures
            r@ == match old(self)@.device {
                Some(x) => x,
                None => DeviceBroadcastModel::empty(),
            },
            final(self)@ == (DeviceQueryResponseModel { device: Some((*final(r.msg))@), ..old(self)@ }),
            *final(final(self).msg) == *final(old(self).msg),
    {
        self.msg.device_mut()
    }

    pub fn set_device(&mut self, val: DeviceBroadcast)
        ensures
            final(self)@ == (DeviceQueryResponseModel { device: Some(val@), ..old(self)@ }),
            *final(final(self).msg) == *final(old(self).msg),
    {
        self.msg.set_device(val);
    }

    pub fn is_online(&self) -> (r: bool)
        ensures
            r == self@.is_online,
    {
        self.msg.is_online()
    }

    pub fn set_is_online(&mut self, val: bool)
        ensures
            final(self)@ == (DeviceQueryResponseModel { is_online: val, ..old(self)@ }),
            *final(final(self).msg) == *final(old(self).msg),
    {
        self.msg.set_is_online(val);
    }

    pub fn last_seen(&self) -> (r: u64)
        ensures
            r == self@.last_seen,
    {
        self.msg.last_seen()
    }

    pub fn set_last_seen(&mut self, val: u64)
        ensures
            final(self)@ == (DeviceQueryResponseModel { last_seen: val, ..old(self)@ }),
            *final(final(self).msg) == *final(old(self).msg),
    {
        self.msg.set_last_seen(val);
    }
}

/// Whether no two entries share a key.
pub open spec fn keys_unique(entries: Seq<(Seq<char>, Seq<char>)>) -> bool {
    forall|i: int, j: int| 0 <= i < j < entries.len() ==> entries[i].0 != entries[j].0
}

/// Whether some entry has `key`.
pub open spec fn has_key(entries: Seq<(Seq<char>, Seq<char>)>, key: Seq<char>) -> bool {
    exists|i: int| 0 <= i < entries.len() && entries[i].0 == key
}

/// The position of the entry with `key`, when there is one.
pub open spec fn key_position(entries: Seq<(Seq<char>, Seq<char>)>, key: Seq<char>) -> int {
    choose|i: int| 0 <= i < entries.len() && entries[i].0 == key
}

/// The value stored under `key`.
pub open spec fn lookup(entries: Seq<(Seq<char>, Seq<char>)>, key: Seq<char>) -> Option<Seq<char>> {
    if has_key(entries, key) {
        Some(entries[key_position(entries, key)].1)
    } else {
        None
    }
}

/// `entries` with `key` mapped to `value`: an entry with that key keeps its
/// place and takes the new value; otherwise the entry is added at the end.
pub open spec fn map_insert(
    entries: Seq<(Seq<char>, Seq<char>)>,
    key: Seq<char>,
    value: Seq<char>,
) -> Seq<(Seq<char>, Seq<char>)> {
    if has_key(entries, key) {
        entries.update(key_position(entries, key), (key, value))
    } else {
        entries.push((key, value))
    }
}

/// `entries` without the entry for `key`.
pub open spec fn map_remove(entries: Seq<(Seq<char>, Seq<char>)>, key: Seq<char>) -> Seq<
    (Seq<char>, Seq<char>),
> {
    if has_key(entries, key) {
        entries.remove(key_position(entries, key))
    } else {
        entries
    }
}

/// Inserts the entries of `more` into `entries`, in order.
pub open spec fn map_insert_all(
    entries: Seq<(Seq<char>, Seq<char>)>,
    more: Seq<(Seq<char>, Seq<char>)>,
) -> Seq<(Seq<char>, Seq<char>)>
    decreases more.len(),
{
    if more.len() == 0 {
        entries
    } else {
        map_insert_all(map_insert(entries, more[0].0, more[0].1), more.drop_first())
    }
}

/// Inserting entries whose keys are new, and distinct, appends them.
pub proof fn lemma_map_insert_all_fresh(
    entries: Seq<(Seq<char>, Seq<char>)>,
    more: Seq<(Seq<char>, Seq<char>)>,
)
    requires
        keys_unique(entries + more),
    ensures
        map_insert_all(entries, more) == entries + more,
    decreases more.len(),
{
    if more.len() > 0 {
        let all = entries + more;
        assert(!has_key(entries, more[0].0)) by {
            if has_key(entries, more[0].0) {
                let i = key_position(entries, more[0].0);
                assert(all[i].0 == all[entries.len() as int].0);
            }
        }
        let next = entries.push(more[0]);
        assert(next + more.drop_first() =~= all);
        lemma_map_insert_all_fresh(next, more.drop_first());
    } else {
        assert(entries + more =~= entries);
    }
}

/// In a map whose keys are unique, the entry at position `i` is the one
/// that `key` finds.
proof fn lemma_lookup_at(entries: Seq<(Seq<char>, Seq<char>)>, key: Seq<char>, i: int)
    requires
        keys_unique(entries),
        0 <= i < entries.len(),
        entries[i].0 == key,
    ensures
        has_key(entries, key),
        key_position(entries, key) == i,
        lookup(entries, key) == Some(entries[i].1),
{
    assert(0 <= i < entries.len() && entries[i].0 == key);
    let p = key_position(entries, key);
    if p != i {
        if p < i {
            assert(entries[p].0 != entries[i].0);
        } else {
            assert(entries[i].0 != entries[p].0);
        }
    }
}

/// After `key` is mapped to `value`, the keys are still unique, `key` finds
/// `value`, and every other key finds what it found before.
pub proof fn lemma_map_insert_lookup(
    entries: Seq<(Seq<char>, Seq<char>)>,
    key: Seq<char>,
    value: Seq<char>,
    other: Seq<char>,
)
    requires
        keys_unique(entries),
    ensures
        keys_unique(map_insert(entries, key, value)),
        lookup(map_insert(entries, key, value), key) == Some(value),
        other != key ==> lookup(map_insert(entries, key, value), other) == lookup(entries, other),
{
    let r = map_insert(entries, key, value);
    if has_key(entries, key) {
        let p = key_position(entries, key);
        assert forall|j: int| 0 <= j < r.len() implies #[trigger] r[j].0 == entries[j].0 by {}
        assert(keys_unique(r)) by {
            assert forall|a: int, b: int| 0 <= a < b < r.len() implies r[a].0 != r[b].0 by {
                assert(r[a].0 == entries[a].0);
                assert(r[b].0 == entries[b].0);
            }
        }
        lemma_lookup_at(r, key, p);
        if other != key {
            if has_key(entries, other) {
                let i = key_position(entries, other);
                assert(r[i] == entries[i]);
                lemma_lookup_at(entries, other, i);
                lemma_lookup_at(r, other, i);
            } else if has_key(r, other) {
                let j = key_position(r, other);
                assert(r[j].0 == entries[j].0);
                assert(0 <= j < entries.len() && entries[j].0 == other);
            }
        }
    } else {
        let n = entries.len() as int;
        assert(keys_unique(r)) by {
            assert forall|a: int, b: int| 0 <= a < b < r.len() implies r[a].0 != r[b].0 by {
                if b == n {
                    assert(r[a] == entries[a]);
                    if entries[a].0 == key {
                        assert(0 <= a < entries.len() && entries[a].0 == key);
                    }
                } else {
                    assert(r[a] == entries[a]);
                    assert(r[b] == entries[b]);
                }
            }
        }
        lemma_lookup_at(r, key, n);
        if other != key {
            if has_key(entries, other) {
                let i = key_position(entries, other);
                assert(r[i] == entries[i]);
                lemma_lookup_at(entries, other, i);
                lemma_lookup_at(r, other, i);
            } else if has_key(r, other) {
                let j = key_position(r, other);
                if j < n {
                    assert(r[j] == entries[j]);
                    assert(0 <= j < entries.len() && entries[j].0 == other);
                }
            }
        }
    }
}

/// After `key` is removed, the keys are still unique, `key` finds nothing,
/// and every other key finds what it found before.
pub proof fn lemma_map_remove_lookup(entries: Seq<(Seq<char>, Seq<char>)>, key: Seq<char>, other: Seq<char>)
    requires
        keys_unique(entries),
    ensures
        keys_unique(map_remove(entries, key)),
        lookup(map_remove(entries, key), key) is None,
        other != key ==> lookup(map_remove(entries, key), other) == lookup(entries, other),
{
    let r = map_remove(entries, key);
    if has_key(entries, key) {
        let p = key_position(entries, key);
        assert forall|j: int| 0 <= j < r.len() implies #[trigger] r[j] == entries[if j < p { j } else { j + 1 }] by {}
        assert(keys_unique(r)) by {
            assert forall|a: int, b: int| 0 <= a < b < r.len() implies r[a].0 != r[b].0 by {
                let a2 = if a < p { a } else { a + 1 };
                let b2 = if b < p { b } else { b + 1 };
                assert(r[a] == entries[a2]);
                assert(r[b] == entries[b2]);
            }
        }
        if has_key(r, key) {
            let j = key_position(r, key);
            let j2 = if j < p { j } else { j + 1 };
            assert(r[j] == entries[j2]);
            lemma_lookup_at(entries, key, j2);
        }
        if other != key {
            if has_key(entries, other) {
                let i = key_position(entries, other);
                lemma_lookup_at(entries, other, i);
                let i2 = if i < p { i } else { i - 1 };
                assert(r[i2] == entries[i]);
                lemma_lookup_at(r, other, i2);
            } else if has_key(r, other) {
                let j = key_position(r, other);
                let j2 = if j < p { j } else { j + 1 };
                assert(r[j] == entries[j2]);
                assert(0 <= j2 < entries.len() && entries[j2].0 == other);
            }
        }
    }
}

/// Inserting entries into a map whose keys are unique keeps them unique.
pub proof fn lemma_map_insert_all_unique(entries: Seq<(Seq<char>, Seq<char>)>, more: Seq<(Seq<char>, Seq<char>)>)
    requires
        keys_unique(entries),
    ensures
        keys_unique(map_insert_all(entries, more)),
    decreases more.len(),
{
    if more.len() > 0 {
        lemma_map_insert_lookup(entries, more[0].0, more[0].1, more[0].0);
        lemma_map_insert_all_unique(map_insert(entries, more[0].0, more[0].1), more.drop_first());
    }
}

/// An entry of the metadata map as it stands on the wire: both key and value
/// are always written.
pub open spec fn entry_encode(key: Seq<char>, value: Seq<char>) -> Seq<u8> {
    delimited(1, encode_utf8(key)) + delimited(2, encode_utf8(value))
}

/// The wire form of a map field: one entry message per entry, in order.
pub open spec fn map_entries(field: nat, entries: Seq<(Seq<char>, Seq<char>)>) -> Seq<u8> {
    repeated_delimited(
        field,
        entries.map_values(|e: (Seq<char>, Seq<char>)| entry_encode(e.0, e.1)),
    )
}

/// The content of one map entry.
pub struct MetadataEntryModel {
    pub key: Seq<char>,
    pub value: Seq<char>,
    /// The fields of the entry read but not understood; the map does not
    /// keep them.
    pub unknown: Seq<u8>,
}

impl MetadataEntryModel {
    /// An entry with an empty key and an empty value.
    pub open spec fn empty() -> Self {
        MetadataEntryModel { key: Seq::empty(), value: Seq::empty(), unknown: Seq::empty() }
    }

    /// Whether a field of an entry is kept among its unknown fields: it is
    /// neither the key nor the value, or it comes with another wire type.
    pub open spec fn keeps_unknown(field: nat, value: WireValue) -> bool {
        !((field == 1 || field == 2) && value is Delimited)
    }

    /// How one field changes the entry; `raw` is the field as it came.
    pub open spec fn apply(self, field: nat, value: WireValue, raw: Seq<u8>) -> Option<Self> {
        if Self::keeps_unknown(field, value) {
            Some(MetadataEntryModel { unknown: self.unknown + raw, ..self })
        } else {
            match value {
                WireValue::Delimited(b) => if !valid_utf8(b) {
                    None
                } else if field == 1 {
                    Some(MetadataEntryModel { key: decode_utf8(b), ..self })
                } else {
                    Some(MetadataEntryModel { value: decode_utf8(b), ..self })
                },
                _ => Some(self),
            }
        }
    }
}

/// One entry of `DeviceBroadcast.metadata` as read from the wire (a map
/// entry message: key 1, value 2).
pub struct MetadataEntry {
    key: String,
    value: String,
    unknown: Vec<u8>,
}

impl View for MetadataEntry {
    type V = MetadataEntryModel;

    closed spec fn view(&self) -> MetadataEntryModel {
        MetadataEntryModel { key: self.key@, value: self.value@, unknown: self.unknown@ }
    }
}

impl WireMessage for MetadataEntry {
    open spec fn apply_wire(
        message: MetadataEntryModel,
        field: nat,
        value: WireValue,
        raw: Seq<u8>,
        depth: nat,
    ) -> Option<MetadataEntryModel> {
        message.apply(field, value, raw)
    }

    open spec fn keeps_unknown(field: nat, value: WireValue) -> bool {
        MetadataEntryModel::keeps_unknown(field, value)
    }

    open spec fn add_unknown(message: MetadataEntryModel, raw: Seq<u8>) -> MetadataEntryModel {
        MetadataEntryModel { unknown: message.unknown + raw, ..message }
    }

    proof fn lemma_apply_unknown(message: MetadataEntryModel, field: nat, value: WireValue, raw: Seq<u8>, depth: nat) {
    }

    proof fn lemma_add_unknown(message: MetadataEntryModel, a: Seq<u8>, b: Seq<u8>) {
        assert(message.unknown + a + b =~= message.unknown + (a + b));
        assert(message.unknown + Seq::<u8>::empty() =~= message.unknown);
    }

    fn apply_field(
        &mut self,
        data: &[u8],
        field: u32,
        value: FieldValue,
        start: usize,
        end: usize,
        depth: u32,
    ) -> (ok: bool) {
        if field == 1 || field == 2 {
            if let FieldValue::Delimited(from, to) = value {
                match proto_string(&data[from..to]) {
                    Some(text) => {
                        if field == 1 {
                            self.key = text;
                        } else {
                            self.value = text;
                        }
                    },
                    None => return false,
                }
                return true;
            }
        }
        append_bytes(&mut self.unknown, &data[start..end]);
        true
    }
}

impl MetadataEntry {
    /// An entry with an empty key and an empty value.
    pub fn new() -> (r: Self)
        ensures
            r@ == MetadataEntryModel::empty(),
    {
        let r = MetadataEntry { key: String::new(), value: String::new(), unknown: Vec::new() };
        assert(r@.unknown =~= Seq::<u8>::empty());
        r
    }
}

/// Writing a map entry out and reading it back gives the same key and value.
pub proof fn lemma_metadata_entry_roundtrip(key: Seq<char>, value: Seq<char>, depth: nat)
    requires
        entry_encode(key, value).len() <= size_limit(),
    ensures
        merge_message::<MetadataEntry>(MetadataEntryModel::empty(), entry_encode(key, value), depth)
            == Some(MetadataEntryModel { key, value, unknown: Seq::empty() }),
{
    let m0 = MetadataEntryModel::empty();
    let m1 = MetadataEntryModel { key, ..m0 };
    let m2 = MetadataEntryModel { key, value, unknown: Seq::empty() };
    let c1 = delimited(1, encode_utf8(key));
    let c2 = delimited(2, encode_utf8(value));
    assert(entry_encode(key, value) =~= c1 + (c2 + Seq::empty()));
    encode_utf8_decode_utf8(key);
    encode_utf8_valid_utf8(key);
    encode_utf8_decode_utf8(value);
    encode_utf8_valid_utf8(value);
    lemma_merge_delimited::<MetadataEntry>(m0, 1, encode_utf8(key), c2 + Seq::empty(), m1, depth);
    lemma_merge_delimited::<MetadataEntry>(m1, 2, encode_utf8(value), Seq::empty(), m2, depth);
    lemma_merge_nothing::<MetadataEntry>(m2, depth);
}

/// The `metadata` map of a `DeviceBroadcast`: string keys to string values,
/// each key at most once, entries in the order they were first inserted.
pub struct MetadataMap {
    entries: Vec<(String, String)>,
}

impl View for MetadataMap {
    type V = Seq<(Seq<char>, Seq<char>)>;

    closed spec fn view(&self) -> Seq<(Seq<char>, Seq<char>)> {
        if keys_unique(self.held()) {
            self.held()
        } else {
            Seq::empty()
        }
    }
}

/// Every metadata map has unique keys.
pub proof fn lemma_metadata_keys_unique(m: MetadataMap)
    ensures
        keys_unique(m@),
{
}

impl MetadataMap {
    /// The entries held, as keys and values.
    closed spec fn held(self) -> Seq<(Seq<char>, Seq<char>)> {
        self.entries@.map_values(|e: (String, String)| (e.0@, e.1@))
    }

    #[verifier::type_invariant]
    closed spec fn keys_are_unique(self) -> bool {
        keys_unique(self.held())
    }

    /// An empty map.
    pub fn new() -> (r: Self)
        ensures
            r@ == Seq::<(Seq<char>, Seq<char>)>::empty(),
    {
        let r = MetadataMap { entries: Vec::new() };
        assert(r@ =~= Seq::<(Seq<char>, Seq<char>)>::empty());
        r
    }

    /// The number of entries.
    pub fn len(&self) -> (r: usize)
        ensures
            r == self@.len(),
            keys_unique(self@),
    {
        proof {
            use_type_invariant(self);
        }
        self.entries.len()
    }

    pub fn is_empty(&self) -> (r: bool)
        ensures
            r == (self@.len() == 0),
    {
        proof {
            use_type_invariant(self);
        }
        self.entries.len() == 0
    }

    /// The entries, in order.
    pub fn entries(&self) -> (r: &[(String, String)])
        ensures
            r@.map_values(|e: (String, String)| (e.0@, e.1@)) == self@,
    {
        proof {
            use_type_invariant(self);
        }
        self.entries.as_slice()
    }

    /// The position of the entry with `key`.
    fn position(&self, key: &String) -> (r: Option<usize>)
        ensures
            match r {
                Some(i) => i < self@.len() && has_key(self@, key@) && key_position(self@, key@) == i,
                None => !has_key(self@, key@),
            },
    {
        proof {
            use_type_invariant(self);
        }
        let mut i: usize = 0;
        while i < self.entries.len()
            invariant
                i <= self@.len(),
                self@.len() == self.entries@.len(),
                keys_unique(self@),
                forall|j: int| 0 <= j < i ==> self@[j].0 != key@,
            decreases self@.len() - i,
        {
            if self.entries[i].0 == *key {
                assert(self@[i as int].0 == key@);
                assert(has_key(self@, key@));
                let ghost p = key_position(self@, key@);
                assert(p == i);
                return Some(i);
            }
            i = i + 1;
        }
        None
    }

    /// The value stored under `key`.
    pub fn get(&self, key: &str) -> (r: Option<&str>)
        ensures
            match lookup(self@, key@) {
                Some(v) => r matches Some(s) && s@ == v,
                None => r is None,
            },
    {
        let key = key.to_owned();
        match self.position(&key) {
            Some(i) => Some(self.entries[i].1.as_str()),
            None => None,
        }
    }

    /// Maps `key` to `value`; true when `key` was not in the map before.
    pub fn insert(&mut self, key: &str, value: &str) -> (r: bool)
        ensures
            r == !has_key(old(self)@, key@),
            final(self)@ == map_insert(old(self)@, key@, value@),
    {
        self.insert_owned(key.to_owned(), value.to_owned())
    }

    fn insert_owned(&mut self, key: String, value: String) -> (r: bool)
        ensures
            r == !has_key(old(self)@, key@),
            final(self)@ == map_insert(old(self)@, key@, value@),
    {
        proof {
            use_type_invariant(&*self);
        }
        let ghost before = self@;
        match self.position(&key) {
            Some(i) => {
                let mut entries = Vec::new();
                std::mem::swap(&mut entries, &mut self.entries);
                entries.set(i, (key, value));
                assert(entries@.map_values(|e: (String, String)| (e.0@, e.1@)) =~= before.update(
                    i as int,
                    (key@, value@),
                ));
                assert(keys_unique(before.update(i as int, (key@, value@))));
                self.entries = entries;
                false
            },
            None => {
                let mut entries = Vec::new();
                std::mem::swap(&mut entries, &mut self.entries);
                entries.push((key, value));
                assert(entries@.map_values(|e: (String, String)| (e.0@, e.1@)) =~= before.push(
                    (key@, value@),
                ));
                assert(keys_unique(before.push((key@, value@))));
                self.entries = entries;
                true
            },
        }
    }

    /// Stores an entry read from the wire.
    pub fn insert_entry(&mut self, entry: MetadataEntry)
        ensures
            final(self)@ == map_insert(old(self)@, entry@.key, entry@.value),
    {
        self.insert_owned(entry.key, entry.value);
    }

    /// Removes the entry for `key`; true when there was one.
    pub fn remove(&mut self, key: &str) -> (r: bool)
        ensures
            r == has_key(old(self)@, key@),
            final(self)@ == map_remove(old(self)@, key@),
    {
        proof {
            use_type_invariant(&*self);
        }
        let ghost before = self@;
        let key = key.to_owned();
        match self.position(&key) {
            Some(i) => {
                let mut entries = Vec::new();
                std::mem::swap(&mut entries, &mut self.entries);
                entries.remove(i);
                assert(entries@.map_values(|e: (String, String)| (e.0@, e.1@)) =~= before.remove(
                    i as int,
                ));
                assert(keys_unique(before.remove(i as int))) by {
                    assert forall|a: int, b: int|
                        0 <= a < b < before.remove(i as int).len() implies before.remove(
                        i as int,
                    )[a].0 != before.remove(i as int)[b].0 by {
                        let a2 = if a < i { a } else { a + 1 };
                        let b2 = if b < i { b } else { b + 1 };
                        assert(before.remove(i as int)[a] == before[a2]);
                        assert(before.remove(i as int)[b] == before[b2]);
                    }
                }
                self.entries = entries;
                true
            },
            None => false,
        }
    }

    /// Inserts every entry of `other`, in order.
    pub fn insert_all(&mut self, other: &MetadataMap)
        ensures
            final(self)@ == map_insert_all(old(self)@, other@),
    {
        proof {
            use_type_invariant(other);
        }
        let mut i: usize = 0;
        assert(other@.skip(0) =~= other@);
        while i < other.entries.len()
            invariant
                i <= other@.len(),
                other@.len() == other.entries@.len(),
                map_insert_all(old(self)@, other@) == map_insert_all(self@, other@.skip(i as int)),
            decreases other@.len() - i,
        {
            let k = other.entries[i].0.clone();
            let v = other.entries[i].1.clone();
            assert(other@.skip(i as int)[0] == (k@, v@));
            assert(other@.skip(i as int).drop_first() =~= other@.skip(i + 1));
            self.insert_owned(k, v);
            i = i + 1;
        }
        assert(other@.skip(i as int) =~= Seq::<(Seq<char>, Seq<char>)>::empty());
    }

    /// Removes every entry.
    pub fn clear(&mut self)
        ensures
            final(self)@ == Seq::<(Seq<char>, Seq<char>)>::empty(),
    {
        self.entries = Vec::new();
        assert(self@ =~= Seq::<(Seq<char>, Seq<char>)>::empty());
    }

    /// Appends every entry as field `field`, in order.
    pub fn write_entries(&self, buf: &mut Vec<u8>, field: u32)
        requires
            1 <= field < 0x2000_0000,
        ensures
            final(buf)@ == old(buf)@ + map_entries(field as nat, self@),
    {
        proof {
            use_type_invariant(self);
        }
        let ghost payloads = self@.map_values(
            |e: (Seq<char>, Seq<char>)| entry_encode(e.0, e.1),
        );
        let mut i: usize = 0;
        assert(payloads.skip(0) =~= payloads);
        while i < self.entries.len()
            invariant
                i <= self@.len(),
                self@.len() == self.entries@.len(),
                1 <= field < 0x2000_0000,
                payloads == self@.map_values(|e: (Seq<char>, Seq<char>)| entry_encode(e.0, e.1)),
                old(buf)@ + repeated_delimited(field as nat, payloads) == buf@ + repeated_delimited(
                    field as nat,
                    payloads.skip(i as int),
                ),
            decreases self@.len() - i,
        {
            let ghost before = buf@;
            let mut payload: Vec<u8> = Vec::new();
            write_delimited(&mut payload, 1, self.entries[i].0.as_str().as_bytes());
            write_delimited(&mut payload, 2, self.entries[i].1.as_str().as_bytes());
            assert(payload@ =~= payloads[i as int]);
            write_delimited(buf, field, payload.as_slice());
            assert(payloads.skip(i as int).drop_first() =~= payloads.skip(i + 1));
            assert(before + repeated_delimited(field as nat, payloads.skip(i as int)) =~= buf@
                + repeated_delimited(field as nat, payloads.skip(i + 1)));
            i = i + 1;
        }
        assert(payloads.skip(i as int) =~= Seq::<Seq<u8>>::empty());
        assert(buf@ + Seq::<u8>::empty() =~= buf@);
    }
}

impl Clone for MetadataMap {
    fn clone(&self) -> (r: Self)
        ensures
            r@ == self@,
    {
        proof {
            use_type_invariant(self);
        }
        let mut entries: Vec<(String, String)> = Vec::new();
        let mut i: usize = 0;
        while i < self.entries.len()
            invariant
                i <= self@.len(),
                self@.len() == self.entries@.len(),
                entries@.map_values(|e: (String, String)| (e.0@, e.1@)) == self@.take(i as int),
            decreases self@.len() - i,
        {
            let k = self.entries[i].0.clone();
            let v = self.entries[i].1.clone();
            let ghost before = entries@;
            entries.push((k, v));
            assert(entries@.map_values(|e: (String, String)| (e.0@, e.1@)) =~= before.map_values(
                |e: (String, String)| (e.0@, e.1@),
            ).push((k@, v@)));
            assert(self@[i as int] == (self.entries@[i as int].0@, self.entries@[i as int].1@));
            assert(self@.take(i + 1) =~= self@.take(i as int).push(self@[i as int]));
            i = i + 1;
        }
        assert(self@.take(i as int) =~= self@);
        MetadataMap { entries }
    }
}

impl Default for MetadataMap {
    fn default() -> (r: Self)
        ensures
            r@ == Seq::<(Seq<char>, Seq<char>)>::empty(),
    {
        Self::new()
    }
}

/// Read access to a metadata map; the default view reads as the empty map.
#[derive(Clone, Copy)]
pub struct MetadataView<'msg> {
    map: Option<&'msg MetadataMap>,
}

impl<'msg> View for MetadataView<'msg> {
    type V = Seq<(Seq<char>, Seq<char>)>;

    closed spec fn view(&self) -> Seq<(Seq<char>, Seq<char>)> {
        match self.map {
            Some(m) => m@,
            None => Seq::empty(),
        }
    }
}

impl<'msg> MetadataView<'msg> {
    pub fn new(map: &'msg MetadataMap) -> (r: Self)
        ensures
            r@ == map@,
    {
        MetadataView { map: Some(map) }
    }

    pub fn len(self) -> (r: usize)
        ensures
            r == self@.len(),
    {
        match self.map {
            Some(m) => m.len(),
            None => 0,
        }
    }

    pub fn is_empty(self) -> (r: bool)
        ensures
            r == (self@.len() == 0),
    {
        match self.map {
            Some(m) => m.is_empty(),
            None => true,
        }
    }

    pub fn get(self, key: &str) -> (r: Option<&'msg str>)
        ensures
            match lookup(self@, key@) {
                Some(v) => r matches Some(s) && s@ == v,
                None => r is None,
            },
    {
        match self.map {
            Some(m) => m.get(key),
            None => None,
        }
    }

    pub fn entries(self) -> (r: &'msg [(String, String)])
        ensures
            r@.map_values(|e: (String, String)| (e.0@, e.1@)) == self@,
    {
        match self.map {
            Some(m) => m.entries(),
            None => {
                assert(Seq::<(String, String)>::empty().map_values(
                    |e: (String, String)| (e.0@, e.1@),
                ) =~= Seq::empty());
                &[]
            },
        }
    }
}

impl<'msg> Default for MetadataView<'msg> {
    fn default() -> (r: Self)
        ensures
            r@ == Seq::<(Seq<char>, Seq<char>)>::empty(),
    {
        MetadataView { map: None }
    }
}

/// Appends a list of broadcasts as repeated field `field`.
pub fn write_device_broadcast_list(buf: &mut Vec<u8>, field: u32, items: &[DeviceBroadcast])
    requires
        1 <= field < 0x2000_0000,
    ensures
        final(buf)@ == old(buf)@ + repeated_delimited(
            field as nat,
            items@.map_values(|x: DeviceBroadcast| x@).map_values(|x: DeviceBroadcastModel| x.encode()),
        ),
{
    let ghost payloads = items@.map_values(|x: DeviceBroadcast| x@).map_values(
        |x: DeviceBroadcastModel| x.encode(),
    );
    let mut i: usize = 0;
    assert(payloads.skip(0) =~= payloads);
    while i < items.len()
        invariant
            i <= items@.len(),
            1 <= field < 0x2000_0000,
            payloads == items@.map_values(|x: DeviceBroadcast| x@).map_values(
                |x: DeviceBroadcastModel| x.encode(),
            ),
            old(buf)@ + repeated_delimited(field as nat, payloads) == buf@ + repeated_delimited(
                field as nat,
                payloads.skip(i as int),
            ),
        decreases items@.len() - i,
    {
        let ghost before = buf@;
        let mut payload: Vec<u8> = Vec::new();
        items[i].write_to(&mut payload);
        assert(payload@ =~= payloads[i as int]);
        write_delimited(buf, field, payload.as_slice());
        assert(payloads.skip(i as int).drop_first() =~= payloads.skip(i + 1));
        assert(before + repeated_delimited(field as nat, payloads.skip(i as int)) =~= buf@
            + repeated_delimited(field as nat, payloads.skip(i + 1)));
        i = i + 1;
    }
    assert(payloads.skip(i as int) =~= Seq::<Seq<u8>>::empty());
    assert(buf@ + Seq::<u8>::empty() =~= buf@);
}

/// A copy of a list of broadcasts.
pub fn clone_device_broadcast_list(items: &[DeviceBroadcast]) -> (r: Vec<DeviceBroadcast>)
    ensures
        r@.map_values(|x: DeviceBroadcast| x@) == items@.map_values(|x: DeviceBroadcast| x@),
{
    let mut r: Vec<DeviceBroadcast> = Vec::new();
    let mut i: usize = 0;
    while i < items.len()
        invariant
            i <= items@.len(),
            r@.map_values(|x: DeviceBroadcast| x@) == items@.take(i as int).map_values(
                |x: DeviceBroadcast| x@,
            ),
        decreases items@.len() - i,
    {
        let item = items[i].clone();
        let ghost before = r@;
        r.push(item);
        assert(r@.map_values(|x: DeviceBroadcast| x@) =~= before.map_values(|x: DeviceBroadcast| x@).push(
            item@,
        ));
        assert(items@.take(i + 1).map_values(|x: DeviceBroadcast| x@) =~= items@.take(i as int).map_values(
            |x: DeviceBroadcast| x@,
        ).push(items@[i as int]@));
        i = i + 1;
    }
    assert(items@.take(i as int) =~= items@);
    r
}


} // verus!
