//! The protobuf wire format, as the messages of this crate use it: base-128
//! varints, field keys, and the walk over the fields of an encoded message.
use vstd::prelude::*;
use vstd::utf8::encode_utf8;

verus! {

/// One more than the largest value a varint carries: a varint is read
/// modulo this number.
pub open spec fn varint_limit() -> int {
    0x1_0000_0000_0000_0000
}

/// One more than the largest length a length-delimited field may have.
pub open spec fn size_limit() -> int {
    0x7fff_ffff
}

/// The varint encoding of `v`: groups of seven bits, least significant
/// first, each byte but the last with its high bit set.
pub open spec fn varint(v: nat) -> Seq<u8>
    decreases v,
{
    if v < 128 {
        seq![v as u8]
    } else {
        seq![(v % 128 + 128) as u8] + varint(v / 128)
    }
}

/// The number formed by the low seven bits of each byte of `s`,
/// least significant group first.
pub open spec fn groups_value(s: Seq<u8>) -> nat
    decreases s.len(),
{
    if s.len() == 0 {
        0
    } else {
        (s[0] % 128) as nat + 128 * groups_value(s.drop_first())
    }
}

/// The length of the varint at the front of `s`: the position just after its
/// first byte whose high bit is clear, if there is one.
pub open spec fn varint_length(s: Seq<u8>) -> Option<nat>
    decreases s.len(),
{
    if s.len() == 0 {
        None
    } else if s[0] < 128 {
        Some(1)
    } else {
        match varint_length(s.drop_first()) {
            Some(n) => Some(n + 1),
            None => None,
        }
    }
}

/// The varint at the front of `s` and the number of bytes it takes. A varint
/// is at most ten bytes long; bits beyond the 64th are dropped.
pub open spec fn decode_varint(s: Seq<u8>) -> Option<(u64, nat)> {
    match varint_length(s) {
        Some(n) => if n <= 10 {
            Some(((groups_value(s.take(n as int)) % (varint_limit() as nat)) as u64, n))
        } else {
            None
        },
        None => None,
    }
}

/// The key of the field at the front of `s` and the number of bytes it
/// takes: a varint of at most five bytes whose value fits in 32 bits.
pub open spec fn decode_key(s: Seq<u8>) -> Option<(u64, nat)> {
    match decode_varint(s) {
        Some((key, n)) => if n <= 5 && key <= 0xffff_ffff {
            Some((key, n))
        } else {
            None
        },
        None => None,
    }
}

/// The key of a field: its number and wire type, as a varint.
pub open spec fn field_key(field: nat, wire_type: nat) -> Seq<u8> {
    varint(field * 8 + wire_type)
}

/// A length-delimited field: key, length, payload.
pub open spec fn delimited(field: nat, payload: Seq<u8>) -> Seq<u8> {
    field_key(field, 2) + varint(payload.len()) + payload
}

/// A varint field as a message without explicit presence writes it: left
/// out when it is zero.
pub open spec fn varint_field(field: nat, v: u64) -> Seq<u8> {
    if v == 0 {
        Seq::empty()
    } else {
        field_key(field, 0) + varint(v as nat)
    }
}

/// A string or bytes field without explicit presence: left out when empty.
pub open spec fn bytes_field(field: nat, payload: Seq<u8>) -> Seq<u8> {
    if payload.len() == 0 {
        Seq::empty()
    } else {
        delimited(field, payload)
    }
}

/// The wire form of a 32-bit integer (an enum value) in a varint: negative
/// values are sign-extended to 64 bits.
pub open spec fn i32_wire(v: i32) -> u64 {
    if v >= 0 {
        v as u64
    } else {
        (varint_limit() + v) as u64
    }
}

/// The 32-bit integer that a varint carries: its low 32 bits, read as a
/// two's-complement number.
pub open spec fn wire_i32(v: u64) -> i32 {
    let low = v % 0x1_0000_0000;
    if low < 0x8000_0000 {
        low as i32
    } else {
        (low - 0x1_0000_0000) as i32
    }
}

/// The unsigned 32-bit integer that a varint carries: its low 32 bits.
pub open spec fn wire_u32(v: u64) -> u32 {
    (v % 0x1_0000_0000) as u32
}

/// A varint is at least one byte long; only its last byte has the high bit clear.
pub proof fn lemma_varint_shape(v: nat)
    ensures
        varint(v).len() >= 1,
        varint(v).last() < 128,
        forall|i: int| 0 <= i < varint(v).len() - 1 ==> varint(v)[i] >= 128,
    decreases v,
{
    if v >= 128 {
        lemma_varint_shape(v / 128);
        let rest = varint(v / 128);
        assert forall|i: int| 0 <= i < varint(v).len() - 1 implies varint(v)[i] >= 128 by {
            if i > 0 {
                assert(varint(v)[i] == rest[i - 1]);
            }
        }
    }
}

/// Below `2^(7k)`, a varint takes at most `k` bytes.
pub proof fn lemma_varint_length_bound(v: nat, k: nat, bound: nat)
    requires
        k >= 1,
        bound == pow128(k),
        v < bound,
    ensures
        varint(v).len() <= k,
    decreases k,
{
    if v >= 128 {
        if k == 1 {
            reveal_with_fuel(pow128, 2);
        } else {
            lemma_varint_length_bound(v / 128, (k - 1) as nat, pow128((k - 1) as nat));
        }
    }
}

/// `128` to the power `k`.
pub open spec fn pow128(k: nat) -> nat
    decreases k,
{
    if k == 0 {
        1
    } else {
        128 * pow128((k - 1) as nat)
    }
}

/// A 64-bit value takes one to ten bytes as a varint.
pub proof fn lemma_varint_at_most_ten(v: nat)
    requires
        v < varint_limit(),
    ensures
        1 <= varint(v).len() <= 10,
{
    reveal_with_fuel(pow128, 11);
    assert(pow128(10) == 0x400000000000000000nat);
    lemma_varint_length_bound(v, 10, pow128(10));
    lemma_varint_shape(v);
}

proof fn lemma_groups_value_varint(v: nat)
    ensures
        groups_value(varint(v)) == v,
    decreases v,
{
    if v >= 128 {
        lemma_groups_value_varint(v / 128);
        assert(varint(v).drop_first() =~= varint(v / 128));
        let b = (v % 128 + 128) as u8;
        assert(varint(v)[0] == b);
        assert(b % 128 == v % 128);
        assert(v == v % 128 + 128 * (v / 128));
    } else {
        assert(varint(v).drop_first() =~= Seq::<u8>::empty());
        assert(groups_value(Seq::<u8>::empty()) == 0);
    }
}

proof fn lemma_varint_length_varint(v: nat, rest: Seq<u8>)
    ensures
        varint_length(varint(v) + rest) == Some(varint(v).len()),
    decreases v,
{
    if v >= 128 {
        lemma_varint_length_varint(v / 128, rest);
        assert((varint(v) + rest).drop_first() =~= varint(v / 128) + rest);
    }
}

/// Reading back a written varint gives its value and length, whatever follows.
pub proof fn lemma_decode_varint(v: nat, rest: Seq<u8>)
    requires
        v < varint_limit(),
    ensures
        decode_varint(varint(v) + rest) == Some((v as u64, varint(v).len())),
{
    lemma_varint_length_varint(v, rest);
    lemma_varint_at_most_ten(v);
    lemma_groups_value_varint(v);
    assert((varint(v) + rest).take(varint(v).len() as int) =~= varint(v));
    vstd::arithmetic::div_mod::lemma_small_mod(v, varint_limit() as nat);
}

/// A value below `2^35` takes at most five bytes as a varint.
pub proof fn lemma_varint_at_most_five(v: nat)
    requires
        v < 0x8_0000_0000,
    ensures
        1 <= varint(v).len() <= 5,
{
    reveal_with_fuel(pow128, 6);
    assert(pow128(5) == 0x8_0000_0000nat);
    lemma_varint_length_bound(v, 5, pow128(5));
    lemma_varint_shape(v);
}

/// Dropping the bits of `128 * g + b` beyond the 64th: `g` keeps its low
/// 57 bits.
proof fn lemma_shift_mod(b: nat, g: nat)
    requires
        b < 128,
    ensures
        (b + 128 * g) % 0x1_0000_0000_0000_0000nat == b + 128 * ((g % 0x1_0000_0000_0000_0000nat)
            % 0x200_0000_0000_0000nat),
        b + 128 * ((g % 0x1_0000_0000_0000_0000nat) % 0x200_0000_0000_0000nat) < 0x1_0000_0000_0000_0000nat,
{
    let big: int = 0x1_0000_0000_0000_0000;
    let small: int = 0x200_0000_0000_0000;
    vstd::arithmetic::div_mod::lemma_fundamental_div_mod(g as int, small);
    vstd::arithmetic::div_mod::lemma_mod_bound(g as int, small);
    let q = (g as int) / small;
    let r = (g as int) % small;
    assert(b + 128 * g == big * q + (b + 128 * r));
    vstd::arithmetic::div_mod::lemma_mod_multiples_vanish(q, b + 128 * r, big);
    vstd::arithmetic::div_mod::lemma_small_mod((b + 128 * r) as nat, big as nat);
    vstd::arithmetic::div_mod::lemma_mod_mod(g as int, small, 128);
}

proof fn lemma_varint_length_skip(s: Seq<u8>, k: int)
    requires
        0 <= k < s.len(),
        forall|i: int| 0 <= i < k ==> s[i] >= 128,
    ensures
        varint_length(s) == match varint_length(s.skip(k)) {
            Some(n) => Some(n + k as nat),
            None => None::<nat>,
        },
    decreases k,
{
    if k > 0 {
        assert(s.drop_first().skip(k - 1) =~= s.skip(k));
        assert forall|i: int| 0 <= i < k - 1 implies s.drop_first()[i] >= 128 by {
            assert(s.drop_first()[i] == s[i + 1]);
        }
        assert(s[0] >= 128);
        lemma_varint_length_skip(s.drop_first(), k - 1);
    } else {
        assert(s.skip(0) =~= s);
    }
}

proof fn lemma_groups_value_step(t: Seq<u8>, i: int)
    requires
        0 <= i < t.len(),
    ensures
        groups_value(t.subrange(i, t.len() as int)) == (t[i] % 128) as nat + 128 * groups_value(
            t.subrange(i + 1, t.len() as int),
        ),
{
    assert(t.subrange(i, t.len() as int).drop_first() =~= t.subrange(i + 1, t.len() as int));
}

/// Reads the varint that starts at `pos` in `data`; gives its value and the
/// position just after it.
pub fn read_varint(data: &[u8], pos: usize) -> (r: Option<(u64, usize)>)
    requires
        pos <= data@.len(),
    ensures
        match decode_varint(data@.skip(pos as int)) {
            Some((v, n)) => r matches Some((w, next)) && w == v && next == pos + n,
            None => r is None,
        },
        r matches Some((v, next)) ==> pos < next <= data@.len(),
{
    let ghost s = data@.skip(pos as int);
    let mut end: usize = pos;
    while end < data.len() && end - pos < 10 && data[end] >= 128
        invariant
            pos <= end <= data@.len(),
            end - pos <= 10,
            s == data@.skip(pos as int),
            forall|i: int| pos <= i < end ==> data@[i] >= 128,
        decreases data@.len() - end,
    {
        end = end + 1;
    }
    if end == data.len() || end - pos == 10 {
        proof {
            if end == data.len() {
                if s.len() > 0 {
                    lemma_all_continuation_no_end(s);
                }
            } else {
                lemma_varint_length_skip(s, 10);
            }
        }
        return None;
    }
    // data[end] is the last byte of the varint.
    proof {
        lemma_varint_length_skip(s, (end - pos) as int);
    }
    let ghost n = (end - pos + 1) as nat;
    let ghost full = data@.subrange(pos as int, end + 1);
    assert(s.take(n as int) =~= full);
    let mut v: u64 = data[end] as u64;
    let mut j: usize = end;
    assert(full.subrange((j - pos) as int, full.len() as int).drop_first() =~= Seq::<u8>::empty());
    assert(groups_value(Seq::<u8>::empty()) == 0);
    assert(full[(j - pos) as int] == data@[end as int]);
    assert(groups_value(full.subrange((j - pos) as int, full.len() as int)) == v);
    proof {
        vstd::arithmetic::div_mod::lemma_small_mod(v as nat, varint_limit() as nat);
    }
    while j > pos
        invariant
            pos <= j <= end < data@.len(),
            full == data@.subrange(pos as int, end + 1),
            s == data@.skip(pos as int),
            varint_length(s) == Some(n),
            n == end - pos + 1,
            s.take(n as int) == full,
            forall|i: int| pos <= i < end ==> data@[i] >= 128,
            v as nat == groups_value(full.subrange(j - pos, full.len() as int)) % (varint_limit() as nat),
        decreases j,
    {
        let byte = data[j - 1];
        assert(full[j - 1 - pos] == byte);
        proof {
            lemma_groups_value_step(full, j - 1 - pos);
            lemma_shift_mod(
                (byte - 128) as nat,
                groups_value(full.subrange(j - pos, full.len() as int)),
            );
        }
        v = (byte - 128) as u64 + 128 * (v % 0x200_0000_0000_0000);
        j = j - 1;
    }
    assert(full.subrange(0, full.len() as int) =~= full);
    Some((v, end + 1))
}

proof fn lemma_all_continuation_no_end(s: Seq<u8>)
    requires
        forall|i: int| 0 <= i < s.len() ==> s[i] >= 128,
    ensures
        varint_length(s) is None,
    decreases s.len(),
{
    if s.len() > 0 {
        lemma_all_continuation_no_end(s.drop_first());
    }
}

/// Appends the varint encoding of `v` to `buf`.
pub fn write_varint(buf: &mut Vec<u8>, v: u64)
    ensures
        final(buf)@ == old(buf)@ + varint(v as nat),
{
    let ghost v0 = v;
    let mut v = v;
    while v >= 128
        invariant
            old(buf)@ + varint(v0 as nat) == buf@ + varint(v as nat),
        decreases v,
    {
        let ghost before = buf@;
        buf.push((v % 128 + 128) as u8);
        assert(before + varint(v as nat) =~= buf@ + varint((v / 128) as nat));
        v = v / 128;
    }
    let ghost before = buf@;
    buf.push(v as u8);
    assert(before + varint(v as nat) =~= buf@);
}

/// What a field carries, as the walk over a message sees it.
pub enum WireValue {
    /// A varint (wire type 0).
    Varint(u64),
    /// A length-delimited payload (wire type 2).
    Delimited(Seq<u8>),
    /// A fixed-width value (wire types 1 and 5); no field of these messages
    /// has one, so its bytes are only kept as an unknown field.
    Fixed,
    /// A group (wire type 3, up to the matching wire type 4); no field of
    /// these messages is one, so its bytes are only kept as an unknown field.
    Group,
}

/// The number of bytes the value of a field with wire type 0, 1, 2 or 5
/// takes at the front of `s`.
pub open spec fn value_length(s: Seq<u8>, wire_type: u64) -> Option<nat> {
    if wire_type == 0 {
        match decode_varint(s) {
            Some((v, m)) => Some(m),
            None => None,
        }
    } else if wire_type == 1 {
        if s.len() >= 8 {
            Some(8)
        } else {
            None
        }
    } else if wire_type == 2 {
        match decode_varint(s) {
            Some((len, m)) => if len < size_limit() && m + len <= s.len() {
                Some((m + len) as nat)
            } else {
                None
            },
            None => None,
        }
    } else if wire_type == 5 {
        if s.len() >= 4 {
            Some(4)
        } else {
            None
        }
    } else {
        None
    }
}

/// The nesting budget a message read on its own starts with. Each
/// sub-message and each group spends one level of it, so that groups nest at
/// most this deep in a message read on its own, one level less in each
/// sub-message it holds, and so on.
pub open spec fn group_depth_limit() -> nat {
    100
}

/// The inside of groups at the front of `s`, read with `depth` levels of
/// nesting: `open` holds the numbers of the groups not closed yet, innermost
/// last, each of them spending one level. The number of bytes up to and
/// including the key that closes the outermost one.
pub open spec fn group_rest(s: Seq<u8>, open: Seq<u64>, depth: nat) -> Option<nat>
    decreases s.len(),
{
    if open.len() == 0 {
        Some(0)
    } else {
        match decode_key(s) {
            None => None,
            Some((key, n)) => if n == 0 || n > s.len() || key / 8 == 0 {
                None
            } else {
                let rest = s.skip(n as int);
                if key % 8 == 4 {
                    if key / 8 == open.last() {
                        match group_rest(rest, open.drop_last(), depth) {
                            Some(k) => Some(n + k),
                            None => None,
                        }
                    } else {
                        None
                    }
                } else if key % 8 == 3 {
                    if open.len() < depth {
                        match group_rest(rest, open.push(key / 8), depth) {
                            Some(k) => Some(n + k),
                            None => None,
                        }
                    } else {
                        None
                    }
                } else {
                    match value_length(rest, key % 8) {
                        Some(m) => if m <= rest.len() {
                            match group_rest(rest.skip(m as int), open, depth) {
                                Some(k) => Some(n + m + k),
                                None => None,
                            }
                        } else {
                            None
                        },
                        None => None,
                    }
                }
            },
        }
    }
}

/// The field at the front of `s`, in a message read with `depth` levels of
/// nesting left: its number, its value and the number of bytes it takes.
/// Field numbers are at least 1; a length is below `size_limit()`; a group
/// ends with the key that closes it and its groups nest at most `depth` deep
/// (the group itself counts); a closing key with no group open and the
/// unused wire types 6 and 7 are rejected.
pub open spec fn decode_field(s: Seq<u8>, depth: nat) -> Option<(nat, WireValue, nat)> {
    match decode_key(s) {
        None => None,
        Some((key, n)) => {
            let field = (key / 8) as nat;
            let wire_type = key % 8;
            let rest = s.skip(n as int);
            if field == 0 {
                None
            } else if wire_type == 0 {
                match decode_varint(rest) {
                    Some((v, m)) => Some((field, WireValue::Varint(v), n + m)),
                    None => None,
                }
            } else if wire_type == 1 {
                if rest.len() >= 8 {
                    Some((field, WireValue::Fixed, n + 8))
                } else {
                    None
                }
            } else if wire_type == 2 {
                match decode_varint(rest) {
                    Some((len, m)) => if len < size_limit() && m + len <= rest.len() {
                        Some((field, WireValue::Delimited(rest.subrange(m as int, m + len)), (n + m + len) as nat))
                    } else {
                        None
                    },
                    None => None,
                }
            } else if wire_type == 5 {
                if rest.len() >= 4 {
                    Some((field, WireValue::Fixed, n + 4))
                } else {
                    None
                }
            } else if wire_type == 3 {
                if depth >= 1 {
                    match group_rest(rest, seq![key / 8], depth) {
                        Some(k) => Some((field, WireValue::Group, n + k)),
                        None => None,
                    }
                } else {
                    None
                }
            } else {
                None
            }
        },
    }
}

/// Folds `apply` over the fields of `s`, starting from `m`; `None` as soon as
/// a field cannot be read (with `depth` levels of nesting left) or `apply`
/// refuses one. `apply` is handed each field's number, its value, and the
/// field as it stands in `s`.
#[verifier::opaque]
pub open spec fn merge_fields<M>(
    m: M,
    s: Seq<u8>,
    apply: spec_fn(M, nat, WireValue, Seq<u8>) -> Option<M>,
    depth: nat,
) -> Option<M>
    decreases s.len(),
{
    if s.len() == 0 {
        Some(m)
    } else {
        match decode_field(s, depth) {
            Some((field, value, n)) => if 0 < n <= s.len() {
                match apply(m, field, value, s.take(n as int)) {
                    Some(next) => merge_fields(next, s.skip(n as int), apply, depth),
                    None => None,
                }
            } else {
                None
            },
            None => None,
        }
    }
}

/// A field value as the reader hands it out: a delimited payload is given
/// by its bounds in the input.
pub enum FieldValue {
    /// A varint (wire type 0).
    Varint(u64),
    /// A length-delimited payload, from its first byte to just after its last.
    Delimited(usize, usize),
    /// A fixed-width value; its bytes are not read.
    Fixed,
    /// A group; its bytes are not read.
    Group,
}

impl FieldValue {
    /// The value as the walk over `data` sees it.
    pub open spec fn wire(self, data: Seq<u8>) -> WireValue {
        match self {
            FieldValue::Varint(v) => WireValue::Varint(v),
            FieldValue::Delimited(start, end) => WireValue::Delimited(
                data.subrange(start as int, end as int),
            ),
            FieldValue::Fixed => WireValue::Fixed,
            FieldValue::Group => WireValue::Group,
        }
    }
}

/// Steps over the value of a field with wire type `wire_type` (0, 1, 2 or
/// 5) that starts at `pos`; gives the position just after it.
fn skip_value(data: &[u8], pos: usize, wire_type: u64) -> (r: Option<usize>)
    requires
        pos <= data@.len(),
    ensures
        match value_length(data@.skip(pos as int), wire_type) {
            Some(m) => r matches Some(next) && next == pos + m && next <= data@.len(),
            None => r is None,
        },
{
    let ghost s = data@.skip(pos as int);
    if wire_type == 0 {
        match read_varint(data, pos) {
            Some((v, next)) => Some(next),
            None => None,
        }
    } else if wire_type == 1 {
        if data.len() - pos >= 8 {
            Some(pos + 8)
        } else {
            None
        }
    } else if wire_type == 2 {
        match read_varint(data, pos) {
            Some((len, start)) => {
                if len < 0x7fff_ffff && len <= (data.len() - start) as u64 {
                    Some(start + len as usize)
                } else {
                    None
                }
            },
            None => None,
        }
    } else if wire_type == 5 {
        if data.len() - pos >= 4 {
            Some(pos + 4)
        } else {
            None
        }
    } else {
        None
    }
}

/// Steps over the inside of a group of field `field` that starts at `pos`
/// (just after its opening key), with `depth` levels of nesting, the group's
/// own included; gives the position just after the key that closes it.
fn skip_group(data: &[u8], pos: usize, field: u64, depth: u32) -> (r: Option<usize>)
    requires
        pos <= data@.len(),
        1 <= depth,
    ensures
        match group_rest(data@.skip(pos as int), seq![field], depth as nat) {
            Some(k) => r matches Some(end) && end == pos + k && end <= data@.len(),
            None => r is None,
        },
{
    let mut open: Vec<u64> = Vec::new();
    open.push(field);
    assert(open@ =~= seq![field]);
    let mut at: usize = pos;
    while open.len() > 0
        invariant
            pos <= at <= data@.len(),
            1 <= depth,
            open@.len() <= depth,
            group_rest(data@.skip(pos as int), seq![field], depth as nat) == match group_rest(data@.skip(at as int), open@, depth as nat) {
                Some(k) => Some((at - pos + k) as nat),
                None => None,
            },
        decreases data@.len() - at,
    {
        let ghost s = data@.skip(at as int);
        let ghost before = open@;
        let (key, after) = match read_varint(data, at) {
            Some(k) => k,
            None => return None,
        };
        assert(s.skip((after - at) as int) =~= data@.skip(after as int));
        if after - at > 5 || key > 0xffff_ffff || key / 8 == 0 {
            return None;
        }
        let wire_type = key % 8;
        if wire_type == 4 {
            if key / 8 != open[open.len() - 1] {
                return None;
            }
            open.pop();
            assert(open@ =~= before.drop_last());
            at = after;
        } else if wire_type == 3 {
            if open.len() >= depth as usize {
                return None;
            }
            open.push(key / 8);
            at = after;
        } else {
            match skip_value(data, after, wire_type) {
                Some(next) => {
                    assert(data@.skip(after as int).skip((next - after) as int) =~= data@.skip(next as int));
                    at = next;
                },
                None => return None,
            }
        }
    }
    Some(at)
}

/// Reads the field that starts at `pos`, with `depth` levels of nesting left:
/// its number, its value and the position just after it.
pub fn read_field(data: &[u8], pos: usize, depth: u32) -> (r: Option<(u32, FieldValue, usize)>)
    requires
        pos <= data@.len(),
    ensures
        match decode_field(data@.skip(pos as int), depth as nat) {
            Some((field, value, n)) => r matches Some((f, v, next)) && f == field && v.wire(data@)
                == value && next == pos + n && next <= data@.len() && (v matches FieldValue::Delimited(
                start,
                end,
            ) ==> start <= end <= data@.len()),
            None => r is None,
        },
{
    let ghost s = data@.skip(pos as int);
    let (key, after_key) = match read_varint(data, pos) {
        Some(k) => k,
        None => return None,
    };
    assert(s.skip((after_key - pos) as int) =~= data@.skip(after_key as int));
    assert(decode_varint(s) == Some((key, (after_key - pos) as nat)));
    if after_key - pos > 5 || key > 0xffff_ffff || key / 8 == 0 {
        return None;
    }
    let field = (key / 8) as u32;
    let wire_type = key % 8;
    if wire_type == 0 {
        match read_varint(data, after_key) {
            Some((v, next)) => {
                assert(decode_varint(s.skip((after_key - pos) as int)) == Some((v, (next - after_key) as nat)));
                assert(decode_field(s, depth as nat) == Some(
                    (field as nat, WireValue::Varint(v), (next - pos) as nat),
                ));
                Some((field, FieldValue::Varint(v), next))
            },
            None => None,
        }
    } else if wire_type == 1 {
        if data.len() - after_key >= 8 {
            Some((field, FieldValue::Fixed, after_key + 8))
        } else {
            None
        }
    } else if wire_type == 2 {
        match read_varint(data, after_key) {
            Some((len, start)) => {
                if len < 0x7fff_ffff && len <= (data.len() - start) as u64 {
                    let end = start + len as usize;
                    assert(data@.skip(after_key as int).subrange(
                        (start - after_key) as int,
                        (end - after_key) as int,
                    ) =~= data@.subrange(start as int, end as int));
                    assert(decode_field(s, depth as nat) == Some(
                        (
                            field as nat,
                            WireValue::Delimited(data@.subrange(start as int, end as int)),
                            (end - pos) as nat,
                        ),
                    ));
                    Some((field, FieldValue::Delimited(start, end), end))
                } else {
                    None
                }
            },
            None => None,
        }
    } else if wire_type == 5 {
        if data.len() - after_key >= 4 {
            Some((field, FieldValue::Fixed, after_key + 4))
        } else {
            None
        }
    } else if wire_type == 3 {
        if depth == 0 {
            return None;
        }
        match skip_group(data, after_key, key / 8, depth) {
            Some(end) => {
                assert(decode_field(s, depth as nat) == Some((field as nat, WireValue::Group, (end - pos) as nat)));
                Some((field, FieldValue::Group, end))
            },
            None => None,
        }
    } else {
        None
    }
}

/// The key of a field written out reads back as that field and wire type.
pub proof fn lemma_decode_key(field: nat, wire_type: nat, rest: Seq<u8>)
    requires
        1 <= field < 0x2000_0000,
        wire_type < 8,
    ensures
        decode_key(field_key(field, wire_type) + rest) == Some(
            ((field * 8 + wire_type) as u64, field_key(field, wire_type).len()),
        ),
        (field * 8 + wire_type) <= 0xffff_ffff,
        (field * 8 + wire_type) / 8 == field,
        (field * 8 + wire_type) % 8 == wire_type,
        (field_key(field, wire_type) + rest).skip(field_key(field, wire_type).len() as int) == rest,
{
    lemma_decode_varint(field * 8 + wire_type, rest);
    lemma_varint_at_most_five(field * 8 + wire_type);
    assert((field_key(field, wire_type) + rest).skip(field_key(field, wire_type).len() as int)
        =~= rest);
}

/// A varint field that was written out reads back as that field and value.
pub proof fn lemma_decode_varint_field(field: nat, v: u64, rest: Seq<u8>, depth: nat)
    requires
        1 <= field < 0x2000_0000,
    ensures
        decode_field(field_key(field, 0) + varint(v as nat) + rest, depth) == Some(
            (field, WireValue::Varint(v), field_key(field, 0).len() + varint(v as nat).len()),
        ),
        (field_key(field, 0) + varint(v as nat) + rest).skip(
            (field_key(field, 0).len() + varint(v as nat).len()) as int,
        ) == rest,
{
    let k = field_key(field, 0);
    let body = varint(v as nat) + rest;
    let s = field_key(field, 0) + varint(v as nat) + rest;
    assert(s =~= k + body);
    lemma_decode_key(field, 0, body);
    lemma_decode_varint(v as nat, rest);
    assert(s.skip((k.len() + varint(v as nat).len()) as int) =~= rest);
}

/// Decoding a length-delimited field that was written out gives its payload back.
pub proof fn lemma_decode_delimited(field: nat, payload: Seq<u8>, rest: Seq<u8>, depth: nat)
    requires
        1 <= field < 0x2000_0000,
        payload.len() < size_limit(),
    ensures
        decode_field(delimited(field, payload) + rest, depth) == Some(
            (field, WireValue::Delimited(payload), delimited(field, payload).len()),
        ),
        (delimited(field, payload) + rest).skip(delimited(field, payload).len() as int) == rest,
{
    let k = field_key(field, 2);
    let s = delimited(field, payload) + rest;
    let lv = varint(payload.len());
    assert(s =~= k + (lv + payload + rest));
    lemma_decode_key(field, 2, lv + payload + rest);
    let after = s.skip(k.len() as int);
    assert(after =~= lv + (payload + rest));
    lemma_decode_varint(payload.len(), payload + rest);
    assert(after.subrange(lv.len() as int, (lv.len() + payload.len()) as int) =~= payload);
    assert(s.skip(delimited(field, payload).len() as int) =~= rest);
}

/// A message that can be read field by field from its wire form.
pub trait WireMessage: View + Sized {
    /// How one field of the wire form changes the message, read with `depth`
    /// levels of nesting left; `None` when the field's content is malformed
    /// for it. `raw` is the field as it stands in the input, key included.
    spec fn apply_wire(message: Self::V, field: nat, value: WireValue, raw: Seq<u8>, depth: nat) -> Option<Self::V>;

    /// Whether a field with this number and value is one the message does not
    /// read but keeps, as it came, among its unknown fields.
    spec fn keeps_unknown(field: nat, value: WireValue) -> bool;

    /// The message with `raw` added after its unknown fields.
    spec fn add_unknown(message: Self::V, raw: Seq<u8>) -> Self::V;

    /// A field the message keeps as unknown is added, as it came, to its
    /// unknown fields.
    proof fn lemma_apply_unknown(message: Self::V, field: nat, value: WireValue, raw: Seq<u8>, depth: nat)
        requires
            Self::keeps_unknown(field, value),
        ensures
            Self::apply_wire(message, field, value, raw, depth) == Some(Self::add_unknown(message, raw)),
    ;

    /// Adding unknown fields in two steps adds them all at once; adding none
    /// changes nothing.
    proof fn lemma_add_unknown(message: Self::V, a: Seq<u8>, b: Seq<u8>)
        ensures
            Self::add_unknown(Self::add_unknown(message, a), b) == Self::add_unknown(message, a + b),
            Self::add_unknown(message, Seq::<u8>::empty()) == message,
    ;

    /// Folds one field, read from `data` with `depth` levels of nesting
    /// left, into `self`; the field stands in `data` from `start` to just
    /// before `end`.
    fn apply_field(
        &mut self,
        data: &[u8],
        field: u32,
        value: FieldValue,
        start: usize,
        end: usize,
        depth: u32,
    ) -> (ok: bool)
        requires
            start <= end <= data@.len(),
            depth <= group_depth_limit(),
            value matches FieldValue::Delimited(s, e) ==> s <= e <= data@.len(),
            decode_field(data@.subrange(start as int, end as int), depth as nat) == Some(
                (field as nat, value.wire(data@), (end - start) as nat),
            ),
        ensures
            ok == Self::apply_wire(
                old(self)@,
                field as nat,
                value.wire(data@),
                data@.subrange(start as int, end as int),
                depth as nat,
            ) is Some,
            ok ==> final(self)@ == Self::apply_wire(
                old(self)@,
                field as nat,
                value.wire(data@),
                data@.subrange(start as int, end as int),
                depth as nat,
            )->0,
    ;
}

/// The message that results from reading the fields of `s` into `m`, with
/// `depth` levels of nesting left (`group_depth_limit()` for a message read
/// on its own).
pub open spec fn merge_message<M: WireMessage>(m: M::V, s: Seq<u8>, depth: nat) -> Option<M::V> {
    merge_fields(
        m,
        s,
        |x: M::V, field: nat, value: WireValue, raw: Seq<u8>| M::apply_wire(x, field, value, raw, depth),
        depth,
    )
}

/// Whether `s` is a run of whole fields, read with `depth` levels of nesting
/// left, that `M` keeps as unknown.
pub open spec fn unknown_fields<M: WireMessage>(s: Seq<u8>, depth: nat) -> bool
    decreases s.len(),
{
    if s.len() == 0 {
        true
    } else {
        match decode_field(s, depth) {
            Some((field, value, n)) => if 0 < n <= s.len() {
                M::keeps_unknown(field, value) && unknown_fields::<M>(s.skip(n as int), depth)
            } else {
                false
            },
            None => false,
        }
    }
}

/// Whether `s` is a run of whole fields, read with `depth` levels of nesting
/// left, of each of which `keeps` holds.
#[verifier::opaque]
pub open spec fn unknown_run(s: Seq<u8>, keeps: spec_fn(nat, WireValue) -> bool, depth: nat) -> bool
    decreases s.len(),
{
    if s.len() == 0 {
        true
    } else {
        match decode_field(s, depth) {
            Some((field, value, n)) => if 0 < n <= s.len() {
                keeps(field, value) && unknown_run(s.skip(n as int), keeps, depth)
            } else {
                false
            },
            None => false,
        }
    }
}

/// Reads every field of `data` into `message`, in order, with `depth` levels
/// of nesting left; false when `data` is not a well-formed encoding of the
/// message (what `message` then holds is unspecified).
pub fn merge_bytes<M: WireMessage>(message: &mut M, data: &[u8], depth: u32) -> (ok: bool)
    requires
        depth <= group_depth_limit(),
    ensures
        ok == merge_message::<M>(old(message)@, data@, depth as nat) is Some,
        ok ==> final(message)@ == merge_message::<M>(old(message)@, data@, depth as nat)->0,
{
    let ghost start = message@;
    let mut pos: usize = 0;
    reveal(merge_fields);
    assert(data@.skip(0) =~= data@);
    while pos < data.len()
        invariant
            pos <= data@.len(),
            depth <= group_depth_limit(),
            start == old(message)@,
            merge_message::<M>(start, data@, depth as nat) == merge_message::<M>(message@, data@.skip(pos as int), depth as nat),
        decreases data@.len() - pos,
    {
        let ghost rest = data@.skip(pos as int);
        reveal(merge_fields);
        match read_field(data, pos, depth) {
            None => return false,
            Some((field, value, next)) => {
                assert(rest.skip((next - pos) as int) =~= data@.skip(next as int));
                assert(rest.take((next - pos) as int) =~= data@.subrange(pos as int, next as int));
                assert(decode_field(data@.subrange(pos as int, next as int), depth as nat) == Some(
                    (field as nat, value.wire(data@), (next - pos) as nat),
                )) by {
                    lemma_decode_field_take(rest, depth as nat);
                    assert(rest.take((next - pos) as int) =~= data@.subrange(pos as int, next as int));
                }
                if !message.apply_field(data, field, value, pos, next, depth) {
                    return false;
                }
                pos = next;
            },
        }
    }
    assert(data@.skip(pos as int) =~= Seq::<u8>::empty());
    true
}

/// Appends `src` to `buf`.
pub fn append_bytes(buf: &mut Vec<u8>, src: &[u8])
    ensures
        final(buf)@ == old(buf)@ + src@,
{
    buf.extend_from_slice(src);
    assert(final(buf)@ =~= old(buf)@ + src@);
}

/// A copy of `src`.
pub fn copy_bytes(src: &[u8]) -> (r: Vec<u8>)
    ensures
        r@ == src@,
{
    let mut r = Vec::new();
    append_bytes(&mut r, src);
    assert(r@ =~= src@);
    r
}

/// Appends the key of field `field` with wire type `wire_type`.
pub fn write_key(buf: &mut Vec<u8>, field: u32, wire_type: u32)
    requires
        1 <= field < 0x2000_0000,
        wire_type < 8,
    ensures
        final(buf)@ == old(buf)@ + field_key(field as nat, wire_type as nat),
{
    write_varint(buf, field as u64 * 8 + wire_type as u64);
}

/// Appends a varint field, unless it is zero.
pub fn write_varint_field(buf: &mut Vec<u8>, field: u32, v: u64)
    requires
        1 <= field < 0x2000_0000,
    ensures
        final(buf)@ == old(buf)@ + varint_field(field as nat, v),
{
    if v != 0 {
        write_key(buf, field, 0);
        write_varint(buf, v);
        assert(final(buf)@ =~= old(buf)@ + varint_field(field as nat, v));
    } else {
        assert(final(buf)@ =~= old(buf)@ + varint_field(field as nat, v));
    }
}

/// Appends a length-delimited field.
pub fn write_delimited(buf: &mut Vec<u8>, field: u32, payload: &[u8])
    requires
        1 <= field < 0x2000_0000,
    ensures
        final(buf)@ == old(buf)@ + delimited(field as nat, payload@),
{
    write_key(buf, field, 2);
    write_varint(buf, payload.len() as u64);
    append_bytes(buf, payload);
    assert(final(buf)@ =~= old(buf)@ + delimited(field as nat, payload@));
}

/// Appends a string or bytes field, unless it is empty.
pub fn write_bytes_field(buf: &mut Vec<u8>, field: u32, payload: &[u8])
    requires
        1 <= field < 0x2000_0000,
    ensures
        final(buf)@ == old(buf)@ + bytes_field(field as nat, payload@),
{
    if payload.len() != 0 {
        write_delimited(buf, field, payload);
    } else {
        assert(final(buf)@ =~= old(buf)@ + bytes_field(field as nat, payload@));
    }
}

/// The low 32 bits of a varint.
pub fn to_u32(v: u64) -> (r: u32)
    ensures
        r == wire_u32(v),
{
    (v % 0x1_0000_0000) as u32
}

/// The 32-bit integer a varint carries.
pub fn to_i32(v: u64) -> (r: i32)
    ensures
        r == wire_i32(v),
{
    let low = v % 0x1_0000_0000;
    if low < 0x8000_0000 {
        low as i32
    } else {
        (low as i64 - 0x1_0000_0000) as i32
    }
}

/// The varint form of a 32-bit integer.
pub fn from_i32(v: i32) -> (r: u64)
    ensures
        r == i32_wire(v),
{
    if v >= 0 {
        v as u64
    } else {
        0xffff_ffff_ffff_ffff - ((-1 - v as i64) as u64)
    }
}

/// A 32-bit integer written into a varint reads back unchanged.
pub proof fn lemma_i32_wire_roundtrip(v: i32)
    ensures
        wire_i32(i32_wire(v)) == v,
{
}

/// Reading a varint field that is written out: it is folded in, or, left
/// out as zero, changes nothing.
pub proof fn lemma_merge_varint_field<M: WireMessage>(
    m: M::V,
    field: nat,
    v: u64,
    rest: Seq<u8>,
    next: M::V,
    depth: nat,
)
    requires
        1 <= field < 0x2000_0000,
        v == 0 ==> next == m,
        v != 0 ==> M::apply_wire(m, field, WireValue::Varint(v), varint_field(field, v), depth) == Some(next),
    ensures
        merge_message::<M>(m, varint_field(field, v) + rest, depth) == merge_message::<M>(next, rest, depth),
{
    reveal(merge_fields);
    if v == 0 {
        assert(varint_field(field, v) + rest =~= rest);
    } else {
        lemma_decode_varint_field(field, v, rest, depth);
        let chunk = field_key(field, 0) + varint(v as nat);
        assert((chunk + rest).take(chunk.len() as int) =~= chunk);
        assert(field_key(field, 0) + varint(v as nat) + rest =~= chunk + rest);
    }
}

/// Reading a varint field that is written out, zero included: it is folded in.
pub proof fn lemma_merge_varint<M: WireMessage>(
    m: M::V,
    field: nat,
    v: u64,
    rest: Seq<u8>,
    next: M::V,
    depth: nat,
)
    requires
        1 <= field < 0x2000_0000,
        M::apply_wire(m, field, WireValue::Varint(v), field_key(field, 0) + varint(v as nat), depth) == Some(next),
    ensures
        merge_message::<M>(m, field_key(field, 0) + varint(v as nat) + rest, depth) == merge_message::<M>(
            next,
            rest,
            depth,
        ),
{
    reveal(merge_fields);
    lemma_decode_varint_field(field, v, rest, depth);
    let chunk = field_key(field, 0) + varint(v as nat);
    assert((chunk + rest).take(chunk.len() as int) =~= chunk);
}

/// A repeated enumeration field written unpacked: one varint field per
/// value, zeros included, in order.
pub open spec fn unpacked(field: nat, values: Seq<i32>) -> Seq<u8>
    decreases values.len(),
{
    if values.len() == 0 {
        Seq::empty()
    } else {
        field_key(field, 0) + varint(i32_wire(values[0]) as nat) + unpacked(field, values.drop_first())
    }
}

/// Reading a length-delimited field that is written out.
pub proof fn lemma_merge_delimited<M: WireMessage>(
    m: M::V,
    field: nat,
    payload: Seq<u8>,
    rest: Seq<u8>,
    next: M::V,
    depth: nat,
)
    requires
        1 <= field < 0x2000_0000,
        delimited(field, payload).len() <= size_limit(),
        M::apply_wire(m, field, WireValue::Delimited(payload), delimited(field, payload), depth) == Some(next),
    ensures
        merge_message::<M>(m, delimited(field, payload) + rest, depth) == merge_message::<M>(next, rest, depth),
{
    reveal(merge_fields);
    lemma_varint_shape(payload.len());
    lemma_decode_delimited(field, payload, rest, depth);
    lemma_varint_shape(field * 8 + 2);
    let chunk = delimited(field, payload);
    assert((chunk + rest).take(chunk.len() as int) =~= chunk);
}

/// Reading a string or bytes field that is written out: it is folded in,
/// or, left out as empty, changes nothing.
pub proof fn lemma_merge_bytes_field<M: WireMessage>(
    m: M::V,
    field: nat,
    payload: Seq<u8>,
    rest: Seq<u8>,
    next: M::V,
    depth: nat,
)
    requires
        1 <= field < 0x2000_0000,
        bytes_field(field, payload).len() <= size_limit(),
        payload.len() == 0 ==> next == m,
        payload.len() != 0 ==> M::apply_wire(m, field, WireValue::Delimited(payload), delimited(field, payload), depth)
            == Some(next),
    ensures
        merge_message::<M>(m, bytes_field(field, payload) + rest, depth) == merge_message::<M>(next, rest, depth),
{
    reveal(merge_fields);
    if payload.len() == 0 {
        assert(bytes_field(field, payload) + rest =~= rest);
    } else {
        lemma_merge_delimited::<M>(m, field, payload, rest, next, depth);
    }
}

/// Reading nothing leaves the message as it is.
pub proof fn lemma_merge_nothing<M: WireMessage>(m: M::V, depth: nat)
    ensures
        merge_message::<M>(m, Seq::empty(), depth) == Some(m),
{
    reveal(merge_fields);
}

/// An optional sub-message: written as a length-delimited field when
/// present (even when empty), left out when absent.
pub open spec fn optional_message(field: nat, payload: Option<Seq<u8>>) -> Seq<u8> {
    match payload {
        Some(p) => delimited(field, p),
        None => Seq::empty(),
    }
}

/// A repeated string, bytes or message field: one length-delimited field
/// per element, in order.
pub open spec fn repeated_delimited(field: nat, payloads: Seq<Seq<u8>>) -> Seq<u8>
    decreases payloads.len(),
{
    if payloads.len() == 0 {
        Seq::empty()
    } else {
        delimited(field, payloads[0]) + repeated_delimited(field, payloads.drop_first())
    }
}

/// A repeated string field.
pub open spec fn repeated_strings(field: nat, items: Seq<Seq<char>>) -> Seq<u8> {
    repeated_delimited(field, items.map_values(|s: Seq<char>| encode_utf8(s)))
}

/// Enum values one after the other as varints.
pub open spec fn packed(values: Seq<i32>) -> Seq<u8>
    decreases values.len(),
{
    if values.len() == 0 {
        Seq::empty()
    } else {
        varint(i32_wire(values[0]) as nat) + packed(values.drop_first())
    }
}

/// A repeated enum field, packed into one length-delimited field; left out
/// when empty.
pub open spec fn packed_field(field: nat, values: Seq<i32>) -> Seq<u8> {
    if values.len() == 0 {
        Seq::empty()
    } else {
        delimited(field, packed(values))
    }
}

/// The enum values of a packed payload.
pub open spec fn unpack(s: Seq<u8>) -> Option<Seq<i32>>
    decreases s.len(),
{
    if s.len() == 0 {
        Some(Seq::empty())
    } else {
        match decode_varint(s) {
            Some((v, n)) => if 0 < n <= s.len() {
                match unpack(s.skip(n as int)) {
                    Some(rest) => Some(seq![wire_i32(v)] + rest),
                    None => None,
                }
            } else {
                None
            },
            None => None,
        }
    }
}

/// Packed enum values read back as the same values.
pub proof fn lemma_unpack_packed(values: Seq<i32>)
    ensures
        unpack(packed(values)) == Some(values),
    decreases values.len(),
{
    if values.len() > 0 {
        let v = i32_wire(values[0]);
        let rest = packed(values.drop_first());
        lemma_decode_varint(v as nat, rest);
        lemma_varint_shape(v as nat);
        assert((varint(v as nat) + rest).skip(varint(v as nat).len() as int) =~= rest);
        lemma_unpack_packed(values.drop_first());
        lemma_i32_wire_roundtrip(values[0]);
        assert(seq![values[0]] + values.drop_first() =~= values);
    }
}

/// Reads the enum values of a packed payload.
pub fn read_packed(payload: &[u8]) -> (r: Option<Vec<i32>>)
    ensures
        r is Some == unpack(payload@) is Some,
        r matches Some(values) ==> values@ == unpack(payload@)->0,
{
    let mut out: Vec<i32> = Vec::new();
    let mut pos: usize = 0;
    assert(payload@.skip(0) =~= payload@);
    while pos < payload.len()
        invariant
            pos <= payload@.len(),
            match unpack(payload@.skip(pos as int)) {
                Some(rest) => unpack(payload@) == Some(out@ + rest),
                None => unpack(payload@) is None,
            },
        decreases payload@.len() - pos,
    {
        let ghost s = payload@.skip(pos as int);
        match read_varint(payload, pos) {
            None => return None,
            Some((v, next)) => {
                assert(s.skip((next - pos) as int) =~= payload@.skip(next as int));
                let ghost before = out@;
                out.push(to_i32(v));
                proof {
                    if let Some(rest) = unpack(payload@.skip(next as int)) {
                        assert(before + (seq![wire_i32(v)] + rest) =~= out@ + rest);
                    }
                }
                pos = next;
            },
        }
    }
    assert(payload@.skip(pos as int) =~= Seq::<u8>::empty());
    assert(out@ + Seq::<i32>::empty() =~= out@);
    Some(out)
}

/// Appends a repeated enum field in packed form (nothing when empty).
pub fn write_packed_field(buf: &mut Vec<u8>, field: u32, values: &[i32])
    requires
        1 <= field < 0x2000_0000,
    ensures
        final(buf)@ == old(buf)@ + packed_field(field as nat, values@),
{
    if values.len() == 0 {
        assert(final(buf)@ =~= old(buf)@ + packed_field(field as nat, values@));
        return;
    }
    let mut payload: Vec<u8> = Vec::new();
    let mut i: usize = 0;
    assert(values@.skip(0) =~= values@);
    assert(payload@ + packed(values@.skip(0)) =~= packed(values@));
    while i < values.len()
        invariant
            i <= values@.len(),
            payload@ + packed(values@.skip(i as int)) == packed(values@),
        decreases values@.len() - i,
    {
        let ghost before = payload@;
        write_varint(&mut payload, from_i32(values[i]));
        assert(values@.skip(i as int).drop_first() =~= values@.skip(i + 1));
        assert(before + packed(values@.skip(i as int)) =~= payload@ + packed(values@.skip(i + 1)));
        i = i + 1;
    }
    assert(payload@ =~= packed(values@));
    write_delimited(buf, field, payload.as_slice());
}

/// Appends a repeated string field: one length-delimited field per item.
pub fn write_repeated_strings(buf: &mut Vec<u8>, field: u32, items: &[String])
    requires
        1 <= field < 0x2000_0000,
    ensures
        final(buf)@ == old(buf)@ + repeated_strings(field as nat, items@.map_values(|s: String| s@)),
{
    let ghost payloads = items@.map_values(|s: String| s@).map_values(|s: Seq<char>| encode_utf8(s));
    let mut i: usize = 0;
    assert(payloads.skip(0) =~= payloads);
    while i < items.len()
        invariant
            i <= items@.len(),
            1 <= field < 0x2000_0000,
            payloads == items@.map_values(|s: String| s@).map_values(|s: Seq<char>| encode_utf8(s)),
            old(buf)@ + repeated_delimited(field as nat, payloads) == buf@ + repeated_delimited(
                field as nat,
                payloads.skip(i as int),
            ),
        decreases items@.len() - i,
    {
        let ghost before = buf@;
        write_delimited(buf, field, items[i].as_str().as_bytes());
        assert(payloads.skip(i as int).drop_first() =~= payloads.skip(i + 1));
        assert(payloads.skip(i as int)[0] == encode_utf8(items@[i as int]@));
        assert(before + repeated_delimited(field as nat, payloads.skip(i as int)) =~= buf@
            + repeated_delimited(field as nat, payloads.skip(i + 1)));
        i = i + 1;
    }
    assert(payloads.skip(i as int) =~= Seq::<Seq<u8>>::empty());
    assert(buf@ + Seq::<u8>::empty() =~= buf@);
}

/// A copy of a list of strings.
pub fn clone_strings(items: &[String]) -> (r: Vec<String>)
    ensures
        r@.map_values(|s: String| s@) == items@.map_values(|s: String| s@),
{
    let mut r: Vec<String> = Vec::new();
    let mut i: usize = 0;
    while i < items.len()
        invariant
            i <= items@.len(),
            r@.map_values(|s: String| s@) == items@.take(i as int).map_values(|s: String| s@),
        decreases items@.len() - i,
    {
        r.push(items[i].clone());
        assert(items@.take(i + 1).map_values(|s: String| s@) =~= items@.take(i as int).map_values(
            |s: String| s@,
        ).push(items@[i as int]@));
        assert(r@.map_values(|s: String| s@) =~= items@.take(i as int).map_values(|s: String| s@).push(
            items@[i as int]@,
        ));
        i = i + 1;
    }
    assert(items@.take(i as int) =~= items@);
    r
}

/// A copy of a list of plain values.
pub fn copy_items<T: Copy>(items: &[T]) -> (r: Vec<T>)
    ensures
        r@ == items@,
{
    let mut r: Vec<T> = Vec::new();
    let mut i: usize = 0;
    while i < items.len()
        invariant
            i <= items@.len(),
            r@ == items@.take(i as int),
        decreases items@.len() - i,
    {
        r.push(items[i]);
        assert(items@.take(i + 1) =~= items@.take(i as int).push(items@[i as int]));
        i = i + 1;
    }
    assert(items@.take(i as int) =~= items@);
    r
}

proof fn lemma_varint_length_prefix(s1: Seq<u8>, s2: Seq<u8>)
    requires
        varint_length(s1) is Some,
    ensures
        varint_length(s1 + s2) == varint_length(s1),
        varint_length(s1)->0 <= s1.len(),
    decreases s1.len(),
{
    if s1[0] >= 128 {
        assert((s1 + s2).drop_first() =~= s1.drop_first() + s2);
        lemma_varint_length_prefix(s1.drop_first(), s2);
    }
}

/// A varint reads the same whatever follows it.
proof fn lemma_decode_varint_prefix(s1: Seq<u8>, s2: Seq<u8>)
    requires
        decode_varint(s1) is Some,
    ensures
        decode_varint(s1 + s2) == decode_varint(s1),
        decode_varint(s1).unwrap().1 <= s1.len(),
{
    lemma_varint_length_prefix(s1, s2);
    let n = varint_length(s1)->0;
    assert((s1 + s2).take(n as int) =~= s1.take(n as int));
}

/// A field reads the same whatever follows it.
proof fn lemma_decode_field_prefix(s1: Seq<u8>, s2: Seq<u8>, depth: nat)
    requires
        decode_field(s1, depth) is Some,
    ensures
        decode_field(s1 + s2, depth) == decode_field(s1, depth),
        decode_field(s1, depth).unwrap().2 <= s1.len(),
{
    lemma_decode_varint_prefix(s1, s2);
    let n = decode_varint(s1).unwrap().1;
    let rest1 = s1.skip(n as int);
    let rest2 = (s1 + s2).skip(n as int);
    assert(rest2 =~= rest1 + s2);
    let key = decode_varint(s1).unwrap().0;
    if key % 8 == 0 || key % 8 == 2 {
        lemma_decode_varint_prefix(rest1, s2);
        if key % 8 == 2 {
            let (len, m) = decode_varint(rest1)->0;
            if m + len <= rest1.len() {
                assert(rest2.subrange(m as int, m + len) =~= rest1.subrange(m as int, m + len));
            }
        }
    } else if key % 8 == 3 {
        lemma_group_rest_prefix(rest1, s2, seq![key / 8], depth);
    }
}

/// The length of a value reads the same whatever follows it.
proof fn lemma_value_length_prefix(s1: Seq<u8>, s2: Seq<u8>, wire_type: u64)
    requires
        value_length(s1, wire_type) is Some,
    ensures
        value_length(s1 + s2, wire_type) == value_length(s1, wire_type),
        value_length(s1, wire_type)->0 <= s1.len(),
{
    if wire_type == 0 || wire_type == 2 {
        lemma_decode_varint_prefix(s1, s2);
    }
}

/// The inside of groups reads the same whatever follows it.
proof fn lemma_group_rest_prefix(s1: Seq<u8>, s2: Seq<u8>, open: Seq<u64>, depth: nat)
    requires
        group_rest(s1, open, depth) is Some,
    ensures
        group_rest(s1 + s2, open, depth) == group_rest(s1, open, depth),
        group_rest(s1, open, depth)->0 <= s1.len(),
    decreases s1.len(),
{
    if open.len() > 0 {
        lemma_decode_varint_prefix(s1, s2);
        let (key, n) = decode_key(s1)->0;
        let rest1 = s1.skip(n as int);
        assert((s1 + s2).skip(n as int) =~= rest1 + s2);
        if key % 8 == 4 {
            lemma_group_rest_prefix(rest1, s2, open.drop_last(), depth);
        } else if key % 8 == 3 {
            lemma_group_rest_prefix(rest1, s2, open.push(key / 8), depth);
        } else {
            lemma_value_length_prefix(rest1, s2, key % 8);
            let m = value_length(rest1, key % 8)->0;
            assert((rest1 + s2).skip(m as int) =~= rest1.skip(m as int) + s2);
            lemma_group_rest_prefix(rest1.skip(m as int), s2, open, depth);
        }
    }
}

/// Reading two inputs one after the other is reading the first and then,
/// into what that gave, the second.
pub proof fn lemma_merge_concat<M: WireMessage>(m: M::V, s1: Seq<u8>, s2: Seq<u8>, depth: nat)
    requires
        merge_message::<M>(m, s1, depth) is Some,
    ensures
        merge_message::<M>(m, s1 + s2, depth) == merge_message::<M>(merge_message::<M>(m, s1, depth)->0, s2, depth),
    decreases s1.len(),
{
    reveal(merge_fields);
    if s1.len() == 0 {
        assert(s1 + s2 =~= s2);
    } else {
        lemma_decode_field_prefix(s1, s2, depth);
        let (field, value, n) = decode_field(s1, depth)->0;
        assert((s1 + s2).skip(n as int) =~= s1.skip(n as int) + s2);
        assert((s1 + s2).take(n as int) =~= s1.take(n as int));
        let next = M::apply_wire(m, field, value, s1.take(n as int), depth)->0;
        lemma_merge_concat::<M>(next, s1.skip(n as int), s2, depth);
    }
}

/// Reading a run of unknown fields adds them, as they are, to the message.
pub proof fn lemma_merge_unknown<M: WireMessage>(m: M::V, s: Seq<u8>, rest: Seq<u8>, depth: nat)
    requires
        unknown_fields::<M>(s, depth),
    ensures
        merge_message::<M>(m, s + rest, depth) == merge_message::<M>(M::add_unknown(m, s), rest, depth),
    decreases s.len(),
{
    reveal(merge_fields);
    if s.len() == 0 {
        assert(s + rest =~= rest);
        assert(s =~= Seq::<u8>::empty());
        M::lemma_add_unknown(m, s, s);
    } else {
        lemma_decode_field_prefix(s, rest, depth);
        let (field, value, n) = decode_field(s, depth)->0;
        let raw = s.take(n as int);
        assert((s + rest).take(n as int) =~= raw);
        assert((s + rest).skip(n as int) =~= s.skip(n as int) + rest);
        M::lemma_apply_unknown(m, field, value, raw, depth);
        lemma_merge_unknown::<M>(M::add_unknown(m, raw), s.skip(n as int), rest, depth);
        M::lemma_add_unknown(m, raw, s.skip(n as int));
        assert(raw + s.skip(n as int) =~= s);
    }
}

/// Two runs of unknown fields, one after the other, make one run.
pub proof fn lemma_unknown_fields_concat<M: WireMessage>(a: Seq<u8>, b: Seq<u8>, depth: nat)
    requires
        unknown_fields::<M>(a, depth),
        unknown_fields::<M>(b, depth),
    ensures
        unknown_fields::<M>(a + b, depth),
    decreases a.len(),
{
    if a.len() == 0 {
        assert(a + b =~= b);
    } else {
        lemma_decode_field_prefix(a, b, depth);
        let (field, value, n) = decode_field(a, depth)->0;
        assert((a + b).skip(n as int) =~= a.skip(n as int) + b);
        lemma_unknown_fields_concat::<M>(a.skip(n as int), b, depth);
    }
}

/// One whole field that the message keeps as unknown is a run of unknown
/// fields.
pub proof fn lemma_unknown_field<M: WireMessage>(raw: Seq<u8>, field: nat, value: WireValue, depth: nat)
    requires
        decode_field(raw, depth) == Some((field, value, raw.len())),
        M::keeps_unknown(field, value),
    ensures
        unknown_fields::<M>(raw, depth),
{
    lemma_decode_field_length(raw, depth);
    reveal_with_fuel(unknown_fields, 2);
    assert(raw.skip(raw.len() as int) =~= Seq::<u8>::empty());
}

/// A field takes at least one byte and no more than there are.
pub proof fn lemma_decode_field_length(s: Seq<u8>, depth: nat)
    requires
        decode_field(s, depth) is Some,
    ensures
        0 < decode_field(s, depth).unwrap().2 <= s.len(),
{
    assert(decode_field(s + Seq::<u8>::empty(), depth) == decode_field(s, depth)) by {
        assert(s + Seq::<u8>::empty() =~= s);
    }
    lemma_decode_field_prefix(s, Seq::<u8>::empty(), depth);
    let (key, n) = decode_varint(s)->0;
    lemma_varint_length_positive(s);
}

proof fn lemma_varint_length_positive(s: Seq<u8>)
    requires
        varint_length(s) is Some,
    ensures
        varint_length(s)->0 >= 1,
    decreases s.len(),
{
    if s[0] >= 128 {
        lemma_varint_length_positive(s.drop_first());
    }
}

proof fn lemma_varint_length_take(s: Seq<u8>, k: int)
    requires
        varint_length(s) is Some,
        varint_length(s)->0 <= k <= s.len(),
    ensures
        varint_length(s.take(k)) == varint_length(s),
    decreases s.len(),
{
    if s[0] >= 128 {
        assert(s.take(k).drop_first() =~= s.drop_first().take(k - 1));
        lemma_varint_length_take(s.drop_first(), k - 1);
    }
}

/// A varint reads the same when what follows it is cut off.
proof fn lemma_decode_varint_take(s: Seq<u8>, k: int)
    requires
        decode_varint(s) is Some,
        decode_varint(s).unwrap().1 <= k <= s.len(),
    ensures
        decode_varint(s.take(k)) == decode_varint(s),
{
    lemma_varint_length_take(s, k);
    let n = varint_length(s)->0;
    assert(s.take(k).take(n as int) =~= s.take(n as int));
}

/// A field reads the same when what follows it is cut off.
pub proof fn lemma_decode_field_take(s: Seq<u8>, depth: nat)
    requires
        decode_field(s, depth) is Some,
    ensures
        decode_field(s.take(decode_field(s, depth).unwrap().2 as int), depth) == decode_field(s, depth),
{
    lemma_decode_field_length(s, depth);
    let total = decode_field(s, depth).unwrap().2 as int;
    let t = s.take(total);
    let (key, n) = decode_varint(s)->0;
    lemma_varint_length_positive(s);
    lemma_decode_varint_take(s, total);
    let rest = s.skip(n as int);
    let trest = t.skip(n as int);
    assert(trest =~= rest.take(total - n));
    if key % 8 == 0 || key % 8 == 2 {
        lemma_decode_varint_take(rest, total - n);
        if key % 8 == 2 {
            let (len, m) = decode_varint(rest)->0;
            assert(trest.subrange(m as int, m + len) =~= rest.subrange(m as int, m + len));
        }
    } else if key % 8 == 3 {
        lemma_group_rest_take(rest, seq![key / 8], total - n, depth);
    }
}

/// The length of a value reads the same when what follows it is cut off.
proof fn lemma_value_length_take(s: Seq<u8>, wire_type: u64, k: int)
    requires
        value_length(s, wire_type) is Some,
        value_length(s, wire_type)->0 <= k <= s.len(),
    ensures
        value_length(s.take(k), wire_type) == value_length(s, wire_type),
{
    if wire_type == 0 || wire_type == 2 {
        lemma_decode_varint_take(s, k);
    }
}

/// The inside of groups reads the same when what follows it is cut off.
proof fn lemma_group_rest_take(s: Seq<u8>, open: Seq<u64>, k: int, depth: nat)
    requires
        group_rest(s, open, depth) is Some,
        group_rest(s, open, depth)->0 <= k <= s.len(),
    ensures
        group_rest(s.take(k), open, depth) == group_rest(s, open, depth),
    decreases s.len(),
{
    if open.len() > 0 {
        let (key, n) = decode_key(s)->0;
        lemma_decode_varint_take(s, k);
        let rest = s.skip(n as int);
        let trest = s.take(k).skip(n as int);
        assert(trest =~= rest.take(k - n));
        if key % 8 == 4 {
            lemma_group_rest_take(rest, open.drop_last(), k - n, depth);
        } else if key % 8 == 3 {
            lemma_group_rest_take(rest, open.push(key / 8), k - n, depth);
        } else {
            let m = value_length(rest, key % 8)->0;
            lemma_value_length_take(rest, key % 8, k - n);
            assert(trest.skip(m as int) =~= rest.skip(m as int).take(k - n - m));
            lemma_group_rest_take(rest.skip(m as int), open, k - n - m, depth);
        }
    }
}

/// The inside of groups that reads with `depth` levels of nesting left reads
/// the same with more.
proof fn lemma_group_rest_deeper(s: Seq<u8>, open: Seq<u64>, depth: nat, more: nat)
    requires
        group_rest(s, open, depth) is Some,
        depth <= more,
    ensures
        group_rest(s, open, more) == group_rest(s, open, depth),
    decreases s.len(),
{
    if open.len() > 0 {
        let (key, n) = decode_key(s)->0;
        let rest = s.skip(n as int);
        if key % 8 == 4 {
            lemma_group_rest_deeper(rest, open.drop_last(), depth, more);
        } else if key % 8 == 3 {
            lemma_group_rest_deeper(rest, open.push(key / 8), depth, more);
        } else {
            let m = value_length(rest, key % 8)->0;
            lemma_group_rest_deeper(rest.skip(m as int), open, depth, more);
        }
    }
}

/// A field that reads with `depth` levels of nesting left reads the same
/// with more.
pub proof fn lemma_decode_field_deeper(s: Seq<u8>, depth: nat, more: nat)
    requires
        decode_field(s, depth) is Some,
        depth <= more,
    ensures
        decode_field(s, more) == decode_field(s, depth),
{
    let (key, n) = decode_key(s)->0;
    if key % 8 == 3 {
        lemma_group_rest_deeper(s.skip(n as int), seq![key / 8], depth, more);
    }
}

/// A run of unknown fields that reads with `depth` levels of nesting left
/// reads with more.
pub proof fn lemma_unknown_fields_deeper<M: WireMessage>(s: Seq<u8>, depth: nat, more: nat)
    requires
        unknown_fields::<M>(s, depth),
        depth <= more,
    ensures
        unknown_fields::<M>(s, more),
    decreases s.len(),
{
    if s.len() > 0 {
        lemma_decode_field_deeper(s, depth, more);
        let (field, value, n) = decode_field(s, depth)->0;
        lemma_unknown_fields_deeper::<M>(s.skip(n as int), depth, more);
    }
}

/// A property that reading any one whole field keeps holds after reading
/// any number of them.
pub proof fn lemma_merge_preserves<M: WireMessage>(m: M::V, s: Seq<u8>, inv: spec_fn(M::V) -> bool, depth: nat)
    requires
        forall|x: M::V, field: nat, value: WireValue, raw: Seq<u8>|
            inv(x) && decode_field(raw, depth) == Some((field, value, raw.len())) && #[trigger] M::apply_wire(
                x,
                field,
                value,
                raw,
                depth,
            ) is Some ==> inv(M::apply_wire(x, field, value, raw, depth)->0),
        inv(m),
        merge_message::<M>(m, s, depth) is Some,
    ensures
        inv(merge_message::<M>(m, s, depth)->0),
    decreases s.len(),
{
    reveal(merge_fields);
    if s.len() > 0 {
        let (field, value, n) = decode_field(s, depth)->0;
        let raw = s.take(n as int);
        lemma_decode_field_take(s, depth);
        lemma_merge_preserves::<M>(M::apply_wire(m, field, value, raw, depth)->0, s.skip(n as int), inv, depth);
    }
}

/// A run of fields that `keeps` holds of is a run of fields `M` keeps as
/// unknown, where `keeps` says what `M` keeps.
pub proof fn lemma_unknown_run_fields<M: WireMessage>(s: Seq<u8>, keeps: spec_fn(nat, WireValue) -> bool, depth: nat)
    requires
        forall|field: nat, value: WireValue| #[trigger] keeps(field, value) == M::keeps_unknown(field, value),
    ensures
        unknown_run(s, keeps, depth) == unknown_fields::<M>(s, depth),
    decreases s.len(),
{
    reveal(unknown_run);
    if s.len() > 0 {
        if let Some((field, value, n)) = decode_field(s, depth) {
            if 0 < n <= s.len() {
                lemma_unknown_run_fields::<M>(s.skip(n as int), keeps, depth);
            }
        }
    }
}

/// Two runs of fields that `keeps` holds of, one after the other, make one
/// run.
pub proof fn lemma_unknown_run_concat(a: Seq<u8>, b: Seq<u8>, keeps: spec_fn(nat, WireValue) -> bool, depth: nat)
    requires
        unknown_run(a, keeps, depth),
        unknown_run(b, keeps, depth),
    ensures
        unknown_run(a + b, keeps, depth),
    decreases a.len(),
{
    reveal(unknown_run);
    if a.len() == 0 {
        assert(a + b =~= b);
    } else {
        lemma_decode_field_prefix(a, b, depth);
        let (field, value, n) = decode_field(a, depth)->0;
        assert((a + b).skip(n as int) =~= a.skip(n as int) + b);
        lemma_unknown_run_concat(a.skip(n as int), b, keeps, depth);
    }
}

/// No fields at all make a run.
pub proof fn lemma_unknown_run_empty(keeps: spec_fn(nat, WireValue) -> bool, depth: nat)
    ensures
        unknown_run(Seq::<u8>::empty(), keeps, depth),
{
    reveal(unknown_run);
}

/// One whole field that `keeps` holds of is a run.
pub proof fn lemma_unknown_run_field(raw: Seq<u8>, field: nat, value: WireValue, keeps: spec_fn(nat, WireValue) -> bool, depth: nat)
    requires
        decode_field(raw, depth) == Some((field, value, raw.len())),
        keeps(field, value),
    ensures
        unknown_run(raw, keeps, depth),
{
    lemma_decode_field_length(raw, depth);
    reveal_with_fuel(unknown_run, 2);
    reveal(unknown_run);
    assert(raw.skip(raw.len() as int) =~= Seq::<u8>::empty());
}

} // verus!
