//! The wire format of capability-key payloads: tagged fields, each a
//! base-128 number or a length-delimited run of bytes.

use vstd::prelude::*;
use vstd::utf8::valid_utf8;

verus! {

/// The base-128 encoding of a number: seven bits per byte, least significant
/// group first, the high bit set on every byte but the last.
pub open spec fn varint(n: nat) -> Seq<u8>
    decreases n,
{
    if n < 128 {
        seq![n as u8]
    } else {
        seq![(n % 128 + 128) as u8] + varint(n / 128)
    }
}

/// One more than the greatest number that `room` bytes can encode, where at
/// most ten bytes encode a number and the tenth holds a single bit.
pub open spec fn varint_bound(room: nat) -> nat {
    if room == 0 {
        1
    } else if room == 1 {
        2
    } else if room == 2 {
        0x100
    } else if room == 3 {
        0x8000
    } else if room == 4 {
        0x40_0000
    } else if room == 5 {
        0x2000_0000
    } else if room == 6 {
        0x10_0000_0000
    } else if room == 7 {
        0x800_0000_0000
    } else if room == 8 {
        0x4_0000_0000_0000
    } else if room == 9 {
        0x200_0000_0000_0000
    } else {
        0x1_0000_0000_0000_0000
    }
}

/// The number at the start of `b` and the count of bytes that encode it,
/// where at most `room` bytes may be read. Nothing where the bytes end
/// before the number does, or where the number does not fit in 64 bits.
pub open spec fn read_varint(b: Seq<u8>, room: nat) -> Option<(nat, nat)>
    decreases room,
{
    if room == 0 || b.len() == 0 {
        None
    } else if b[0] < 128 {
        if room == 1 && b[0] > 1 {
            None
        } else {
            Some((b[0] as nat, 1))
        }
    } else {
        match read_varint(b.drop_first(), (room - 1) as nat) {
            Some((v, n)) => Some((((b[0] - 128) + 128 * v) as nat, n + 1)),
            None => None,
        }
    }
}

/// A number that was read is below the bound for the room it was read in,
/// and the bytes that encode it are at most `room` and within `b`.
pub proof fn lemma_read_varint_bound(b: Seq<u8>, room: nat)
    requires
        room <= 10,
    ensures
        match read_varint(b, room) {
            Some((v, n)) => v < varint_bound(room) && 1 <= n <= room && n <= b.len(),
            None => true,
        },
    decreases room,
{
    if room > 0 && b.len() > 0 && b[0] >= 128 {
        lemma_read_varint_bound(b.drop_first(), (room - 1) as nat);
    }
}

/// Reading the encoding of a number gives the number back, whatever follows
/// it.
pub proof fn lemma_read_varint_of_varint(n: nat, rest: Seq<u8>, room: nat)
    requires
        1 <= room <= 10,
        n < varint_bound(room),
    ensures
        read_varint(varint(n) + rest, room) == Some((n, varint(n).len())),
        1 <= varint(n).len() <= room,
    decreases n,
{
    let all = varint(n) + rest;
    if n < 128 {
        assert(all[0] == n as u8);
    } else {
        assert(all[0] == (n % 128 + 128) as u8);
        assert(all.drop_first() =~= varint(n / 128) + rest);
        lemma_read_varint_of_varint(n / 128, rest, (room - 1) as nat);
    }
}

/// Appends the base-128 encoding of a number.
pub fn write_varint(out: &mut Vec<u8>, n: u64)
    ensures
        final(out)@ == old(out)@ + varint(n as nat),
{
    let mut rest = n;
    while rest >= 128
        invariant
            out@ + varint(rest as nat) == old(out)@ + varint(n as nat),
        decreases rest,
    {
        let ghost before = out@;
        out.push((rest % 128) as u8 + 128);
        assert(before + varint(rest as nat) =~= out@ + varint((rest / 128) as nat));
        rest = rest / 128;
    }
    let ghost before = out@;
    out.push(rest as u8);
    assert(out@ =~= before + varint(rest as nat));
}

/// Reads the number that starts at `pos`, from at most `room` bytes. Returns
/// the number and the position after it.
pub fn read_varint_at(b: &[u8], pos: usize, room: usize) -> (r: Option<(u64, usize)>)
    requires
        pos <= b@.len(),
        room <= 10,
    ensures
        match r {
            Some((v, end)) => read_varint(b@.subrange(pos as int, b@.len() as int), room as nat)
                == Some((v as nat, (end - pos) as nat)) && pos < end <= b@.len(),
            None => read_varint(b@.subrange(pos as int, b@.len() as int), room as nat) is None,
        },
    decreases room,
{
    let ghost s = b@.subrange(pos as int, b@.len() as int);
    if room == 0 || pos >= b.len() {
        return None;
    }
    let byte = b[pos];
    assert(s[0] == byte);
    if byte < 128 {
        if room == 1 && byte > 1 {
            None
        } else {
            Some((byte as u64, pos + 1))
        }
    } else {
        assert(s.drop_first() =~= b@.subrange(pos + 1, b@.len() as int));
        proof {
            lemma_read_varint_bound(s.drop_first(), (room - 1) as nat);
        }
        match read_varint_at(b, pos + 1, room - 1) {
            Some((v, end)) => Some(((byte - 128) as u64 + 128 * v, end)),
            None => None,
        }
    }
}

/// What a field holds, by the kind of its encoding.
pub ghost enum FieldValue {
    Varint(nat),
    Fixed64,
    Bytes(Seq<u8>),
    Fixed32,
}

/// Model of one encoded field: its number, what it holds and how many bytes
/// encode it, key included.
pub ghost struct FieldView {
    pub tag: nat,
    pub value: FieldValue,
    pub len: nat,
}

/// The field at the start of `b`. A field begins with a key, a number that
/// holds the field's number and, in its low three bits, the kind of its
/// encoding. Nothing where the key or the field is cut short, the kind is
/// none of the four above, or the field's number is zero or out of range.
pub open spec fn read_field(b: Seq<u8>) -> Option<FieldView> {
    match read_varint(b, 10) {
        None => None,
        Some((key, n)) => {
            let rest = b.subrange(n as int, b.len() as int);
            let tag = key / 8;
            if key > u32::MAX || tag == 0 {
                None
            } else if key % 8 == 0 {
                match read_varint(rest, 10) {
                    Some((v, m)) => Some(
                        FieldView { tag, value: FieldValue::Varint(v), len: n + m },
                    ),
                    None => None,
                }
            } else if key % 8 == 1 {
                if rest.len() >= 8 {
                    Some(FieldView { tag, value: FieldValue::Fixed64, len: n + 8 })
                } else {
                    None
                }
            } else if key % 8 == 2 {
                match read_varint(rest, 10) {
                    Some((l, m)) => if l <= rest.len() - m {
                        Some(
                            FieldView {
                                tag,
                                value: FieldValue::Bytes(rest.subrange(m as int, (m + l) as int)),
                                len: n + m + l,
                            },
                        )
                    } else {
                        None
                    },
                    None => None,
                }
            } else if key % 8 == 5 {
                if rest.len() >= 4 {
                    Some(FieldView { tag, value: FieldValue::Fixed32, len: n + 4 })
                } else {
                    None
                }
            } else {
                None
            }
        },
    }
}

/// A field that was read lies within the bytes and is not empty.
pub proof fn lemma_read_field_len(b: Seq<u8>)
    ensures
        match read_field(b) {
            Some(f) => 1 <= f.len <= b.len() && 1 <= f.tag,
            None => true,
        },
{
    lemma_read_varint_bound(b, 10);
    match read_varint(b, 10) {
        Some((key, n)) => {
            lemma_read_varint_bound(b.subrange(n as int, b.len() as int), 10);
        },
        None => {},
    }
}

/// What a decoded field holds.
#[derive(Clone, Copy, Debug, PartialEq, Eq)]
pub enum FieldData {
    Varint(u64),
    Fixed64,
    /// The bytes from `start` up to `end` of the buffer.
    Bytes { start: usize, end: usize },
    Fixed32,
}

/// One decoded field of a buffer.
#[derive(Clone, Copy, Debug, PartialEq, Eq)]
pub struct Field {
    pub tag: u32,
    pub data: FieldData,
    /// The position after the field.
    pub end: usize,
}

/// What a decoded field of the buffer `b` holds, as a model.
pub open spec fn field_value(b: Seq<u8>, data: FieldData) -> FieldValue {
    match data {
        FieldData::Varint(v) => FieldValue::Varint(v as nat),
        FieldData::Fixed64 => FieldValue::Fixed64,
        FieldData::Bytes { start, end } => FieldValue::Bytes(b.subrange(start as int, end as int)),
        FieldData::Fixed32 => FieldValue::Fixed32,
    }
}

/// Reads the field that starts at `pos`.
pub fn read_field_at(b: &[u8], pos: usize) -> (r: Option<Field>)
    requires
        pos <= b@.len(),
    ensures
        match r {
            Some(f) => read_field(b@.subrange(pos as int, b@.len() as int)) == Some(
                FieldView {
                    tag: f.tag as nat,
                    value: field_value(b@, f.data),
                    len: (f.end - pos) as nat,
                },
            ) && pos < f.end <= b@.len() && (f.data matches FieldData::Bytes { start, end } ==> pos
                <= start <= end <= f.end),
            None => read_field(b@.subrange(pos as int, b@.len() as int)) is None,
        },
{
    let ghost s = b@.subrange(pos as int, b@.len() as int);
    let (key, after_key) = match read_varint_at(b, pos, 10) {
        Some(found) => found,
        None => {
            return None;
        },
    };
    let ghost rest = s.subrange(after_key - pos, s.len() as int);
    assert(rest =~= b@.subrange(after_key as int, b@.len() as int));
    if key > 0xffff_ffff || key / 8 == 0 {
        return None;
    }
    let tag: u32 = (key / 8) as u32;
    let kind = key % 8;
    if kind == 0 {
        match read_varint_at(b, after_key, 10) {
            Some((v, end)) => Some(Field { tag, data: FieldData::Varint(v), end }),
            None => None,
        }
    } else if kind == 1 {
        if b.len() - after_key >= 8 {
            Some(Field { tag, data: FieldData::Fixed64, end: after_key + 8 })
        } else {
            None
        }
    } else if kind == 2 {
        match read_varint_at(b, after_key, 10) {
            Some((l, start)) => {
                if l <= (b.len() - start) as u64 {
                    let end: usize = start + l as usize;
                    assert(rest.subrange(start - after_key, start - after_key + l) =~= b@.subrange(
                        start as int,
                        end as int,
                    ));
                    Some(Field { tag, data: FieldData::Bytes { start, end }, end })
                } else {
                    None
                }
            },
            None => None,
        }
    } else if kind == 5 {
        if b.len() - after_key >= 4 {
            Some(Field { tag, data: FieldData::Fixed32, end: after_key + 4 })
        } else {
            None
        }
    } else {
        None
    }
}

/// The greatest number that a field can have.
pub const TAG_MAX: u32 = 0x1fff_ffff;

/// The encoding of a numeric field; nothing for zero, which is what a field
/// that is left out stands for.
pub open spec fn varint_field(tag: nat, v: nat) -> Seq<u8> {
    if v == 0 {
        Seq::empty()
    } else {
        varint(tag * 8) + varint(v)
    }
}

/// The encoding of a field of bytes; nothing for no bytes.
pub open spec fn bytes_field(tag: nat, s: Seq<u8>) -> Seq<u8> {
    if s.len() == 0 {
        Seq::empty()
    } else {
        varint(tag * 8 + 2) + varint(s.len()) + s
    }
}

/// Reading an encoded numeric field gives the field back, whatever follows.
pub proof fn lemma_read_varint_field(tag: nat, v: nat, rest: Seq<u8>)
    requires
        1 <= tag <= TAG_MAX,
        0 < v < 0x1_0000_0000_0000_0000,
    ensures
        read_field(varint_field(tag, v) + rest) == Some(
            FieldView { tag, value: FieldValue::Varint(v), len: varint_field(tag, v).len() },
        ),
{
    let all = varint_field(tag, v) + rest;
    let key = tag * 8;
    assert(all =~= varint(key) + (varint(v) + rest));
    lemma_read_varint_of_varint(key, varint(v) + rest, 10);
    let n = varint(key).len();
    assert(all.subrange(n as int, all.len() as int) =~= varint(v) + rest);
    lemma_read_varint_of_varint(v, rest, 10);
}

/// Reading an encoded field of bytes gives the field back, whatever follows.
pub proof fn lemma_read_bytes_field(tag: nat, s: Seq<u8>, rest: Seq<u8>)
    requires
        1 <= tag <= TAG_MAX,
        0 < s.len() < 0x1_0000_0000_0000_0000,
    ensures
        read_field(bytes_field(tag, s) + rest) == Some(
            FieldView { tag, value: FieldValue::Bytes(s), len: bytes_field(tag, s).len() },
        ),
{
    let all = bytes_field(tag, s) + rest;
    let key = tag * 8 + 2;
    assert(all =~= varint(key) + (varint(s.len()) + s + rest));
    lemma_read_varint_of_varint(key, varint(s.len()) + s + rest, 10);
    let n = varint(key).len();
    let after = all.subrange(n as int, all.len() as int);
    assert(after =~= varint(s.len()) + (s + rest));
    lemma_read_varint_of_varint(s.len(), s + rest, 10);
    let m = varint(s.len()).len();
    assert(after.subrange(m as int, (m + s.len()) as int) =~= s);
}

/// An encoded number takes at most ten bytes.
pub proof fn lemma_varint_len(n: nat)
    requires
        n < 0x1_0000_0000_0000_0000,
    ensures
        1 <= varint(n).len() <= 10,
{
    lemma_read_varint_of_varint(n, Seq::empty(), 10);
}

/// An encoded field is at most twenty bytes longer than what it holds.
pub proof fn lemma_field_len(tag: nat, v: nat, s: Seq<u8>)
    requires
        tag <= TAG_MAX,
        v < 0x1_0000_0000_0000_0000,
        s.len() < 0x1_0000_0000_0000_0000,
    ensures
        varint_field(tag, v).len() <= 20,
        bytes_field(tag, s).len() <= s.len() + 20,
{
    lemma_varint_len(v);
    lemma_varint_len(s.len());
    lemma_varint_len(tag * 8);
    lemma_varint_len(tag * 8 + 2);
}

/// The length of the encoding of a field of `n` bytes whose number is below
/// sixteen, so that its key takes one byte.
pub open spec fn bytes_field_len(n: nat) -> nat {
    if n == 0 {
        0
    } else {
        1 + varint(n).len() + n
    }
}

/// The length of an encoded payload depends on the lengths of what it holds
/// only, not on the bytes.
pub open spec fn key_len(
    version: u32,
    endpoint_len: nat,
    salt_len: nat,
    nonce_len: nat,
    sealed_len: nat,
) -> nat {
    varint_field(1, version as nat).len() + bytes_field_len(endpoint_len) + bytes_field_len(
        salt_len,
    ) + bytes_field_len(nonce_len) + bytes_field_len(sealed_len)
}

/// Appends the encoding of a numeric field.
pub fn write_varint_field(out: &mut Vec<u8>, tag: u32, v: u64)
    requires
        1 <= tag <= TAG_MAX,
    ensures
        final(out)@ == old(out)@ + varint_field(tag as nat, v as nat),
{
    if v != 0 {
        write_varint(out, (tag * 8) as u64);
        write_varint(out, v);
        assert(out@ =~= old(out)@ + varint_field(tag as nat, v as nat));
    } else {
        assert(out@ =~= old(out)@ + varint_field(tag as nat, v as nat));
    }
}

/// Appends the encoding of a field of bytes.
pub fn write_bytes_field(out: &mut Vec<u8>, tag: u32, s: &[u8])
    requires
        1 <= tag <= TAG_MAX,
    ensures
        final(out)@ == old(out)@ + bytes_field(tag as nat, s@),
{
    if s.len() != 0 {
        write_varint(out, (tag * 8 + 2) as u64);
        write_varint(out, s.len() as u64);
        let ghost head = out@;
        let mut i: usize = 0;
        while i < s.len()
            invariant
                i <= s@.len(),
                out@ == head + s@.subrange(0, i as int),
            decreases s@.len() - i,
        {
            out.push(s[i]);
            i += 1;
            assert(out@ =~= head + s@.subrange(0, i as int));
        }
        assert(s@.subrange(0, i as int) =~= s@);
        assert(out@ =~= old(out)@ + bytes_field(tag as nat, s@));
    } else {
        assert(out@ =~= old(out)@ + bytes_field(tag as nat, s@));
    }
}

/// The bytes of a buffer from `start` up to `end`, copied.
pub fn copy_range(b: &[u8], start: usize, end: usize) -> (r: Vec<u8>)
    requires
        start <= end <= b@.len(),
    ensures
        r@ == b@.subrange(start as int, end as int),
{
    let mut out: Vec<u8> = Vec::new();
    let mut i: usize = start;
    while i < end
        invariant
            start <= i <= end <= b@.len(),
            out@ == b@.subrange(start as int, i as int),
        decreases end - i,
    {
        out.push(b[i]);
        i += 1;
        assert(out@ =~= b@.subrange(start as int, i as int));
    }
    out
}

/// Whether the bytes are well-formed UTF-8, as `core::str::from_utf8` judges
/// it: the call succeeds exactly on well-formed UTF-8.
#[verifier::external_body]
pub(crate) fn is_utf8(bytes: &[u8]) -> (r: bool)
    ensures
        r == valid_utf8(bytes@),
{
    core::str::from_utf8(bytes).is_ok()
}

/// The bytes are not the encoding of a message.
#[derive(Clone, Copy, Debug, PartialEq, Eq, Structural)]
pub struct DecodeError;

/// Model of a [`ReportApiKey`] payload.
pub ghost struct ReportApiKeyView {
    pub report_api_key_version: u32,
    pub endpoint: Seq<u8>,
    pub account_salt: Seq<u8>,
    pub nonce: Seq<u8>,
    pub encrypted_contents: Seq<u8>,
}

/// The payload of a capability key.
#[derive(Debug, PartialEq, Eq)]
pub struct ReportApiKey {
    pub report_api_key_version: u32,
    /// The endpoint that the key is bound to, as UTF-8 text.
    pub endpoint: Vec<u8>,
    pub account_salt: Vec<u8>,
    pub nonce: Vec<u8>,
    pub encrypted_contents: Vec<u8>,
}

impl View for ReportApiKey {
    type V = ReportApiKeyView;

    open spec fn view(&self) -> ReportApiKeyView {
        ReportApiKeyView {
            report_api_key_version: self.report_api_key_version,
            endpoint: self.endpoint@,
            account_salt: self.account_salt@,
            nonce: self.nonce@,
            encrypted_contents: self.encrypted_contents@,
        }
    }
}

/// The payload in which every field has its default.
pub open spec fn empty_key() -> ReportApiKeyView {
    ReportApiKeyView {
        report_api_key_version: 0,
        endpoint: Seq::empty(),
        account_salt: Seq::empty(),
        nonce: Seq::empty(),
        encrypted_contents: Seq::empty(),
    }
}

/// The low 32 bits of a number.
pub open spec fn low_u32(v: nat) -> u32 {
    (v % 0x1_0000_0000) as u32
}

/// The payload after one more field was read. A field of the payload must be
/// encoded as its kind asks, and the endpoint must be UTF-8; a field that
/// the payload does not know is passed over.
pub open spec fn merge_key_field(m: ReportApiKeyView, f: FieldView) -> Option<ReportApiKeyView> {
    if f.tag == 1 {
        match f.value {
            FieldValue::Varint(v) => Some(
                ReportApiKeyView { report_api_key_version: low_u32(v), ..m },
            ),
            _ => None,
        }
    } else if f.tag == 2 {
        match f.value {
            FieldValue::Bytes(s) => if valid_utf8(s) {
                Some(ReportApiKeyView { endpoint: s, ..m })
            } else {
                None
            },
            _ => None,
        }
    } else if f.tag == 3 {
        match f.value {
            FieldValue::Bytes(s) => Some(ReportApiKeyView { account_salt: s, ..m }),
            _ => None,
        }
    } else if f.tag == 4 {
        match f.value {
            FieldValue::Bytes(s) => Some(ReportApiKeyView { nonce: s, ..m }),
            _ => None,
        }
    } else if f.tag == 5 {
        match f.value {
            FieldValue::Bytes(s) => Some(ReportApiKeyView { encrypted_contents: s, ..m }),
            _ => None,
        }
    } else {
        Some(m)
    }
}

/// The payload that results from reading the fields in `b` one after the
/// other into `m`. Where a field occurs twice, the later one counts.
pub open spec fn decode_key_fields(b: Seq<u8>, m: ReportApiKeyView) -> Option<ReportApiKeyView>
    decreases b.len(),
{
    if b.len() == 0 {
        Some(m)
    } else {
        match read_field(b) {
            None => None,
            Some(f) => match merge_key_field(m, f) {
                None => None,
                Some(next) => {
                    proof {
                        lemma_read_field_len(b);
                    }
                    decode_key_fields(b.subrange(f.len as int, b.len() as int), next)
                },
            },
        }
    }
}

/// The payload that the bytes encode.
pub open spec fn decode_key(b: Seq<u8>) -> Option<ReportApiKeyView> {
    decode_key_fields(b, empty_key())
}

/// The encoding of a payload: its fields in the order of their numbers, a
/// field that has its default left out.
pub open spec fn encode_key(m: ReportApiKeyView) -> Seq<u8> {
    varint_field(1, m.report_api_key_version as nat) + bytes_field(2, m.endpoint) + bytes_field(
        3,
        m.account_salt,
    ) + bytes_field(4, m.nonce) + bytes_field(5, m.encrypted_contents)
}

proof fn lemma_decode_step_bytes(tag: nat, s: Seq<u8>, rest: Seq<u8>, m: ReportApiKeyView)
    requires
        2 <= tag <= 5,
        s.len() < 0x1_0000_0000_0000_0000,
        tag == 2 ==> valid_utf8(s) && m.endpoint.len() == 0,
        tag == 3 ==> m.account_salt.len() == 0,
        tag == 4 ==> m.nonce.len() == 0,
        tag == 5 ==> m.encrypted_contents.len() == 0,
    ensures
        decode_key_fields(bytes_field(tag, s) + rest, m) == decode_key_fields(
            rest,
            if tag == 2 {
                ReportApiKeyView { endpoint: s, ..m }
            } else if tag == 3 {
                ReportApiKeyView { account_salt: s, ..m }
            } else if tag == 4 {
                ReportApiKeyView { nonce: s, ..m }
            } else {
                ReportApiKeyView { encrypted_contents: s, ..m }
            },
        ),
{
    let all = bytes_field(tag, s) + rest;
    if s.len() == 0 {
        assert(all =~= rest);
        assert(m.endpoint.len() == 0 ==> m.endpoint =~= s);
        assert(m.account_salt.len() == 0 ==> m.account_salt =~= s);
        assert(m.nonce.len() == 0 ==> m.nonce =~= s);
        assert(m.encrypted_contents.len() == 0 ==> m.encrypted_contents =~= s);
    } else {
        lemma_read_bytes_field(tag, s, rest);
        assert(all.subrange(bytes_field(tag, s).len() as int, all.len() as int) =~= rest);
    }
}

/// The length of an encoded payload.
pub proof fn lemma_key_len(m: ReportApiKeyView)
    ensures
        encode_key(m).len() == key_len(
            m.report_api_key_version,
            m.endpoint.len(),
            m.account_salt.len(),
            m.nonce.len(),
            m.encrypted_contents.len(),
        ),
{
    assert(varint(18).len() == 1);
    assert(varint(26).len() == 1);
    assert(varint(34).len() == 1);
    assert(varint(42).len() == 1);
}

proof fn lemma_decode_step_version(v: u32, rest: Seq<u8>, m: ReportApiKeyView)
    requires
        m.report_api_key_version == 0,
    ensures
        decode_key_fields(varint_field(1, v as nat) + rest, m) == decode_key_fields(
            rest,
            ReportApiKeyView { report_api_key_version: v, ..m },
        ),
{
    let all = varint_field(1, v as nat) + rest;
    if v == 0 {
        assert(all =~= rest);
    } else {
        lemma_read_varint_field(1, v as nat, rest);
        assert(all.subrange(varint_field(1, v as nat).len() as int, all.len() as int) =~= rest);
        assert(low_u32(v as nat) == v);
    }
}

/// Decoding the encoding of a payload gives the payload back, provided that
/// its endpoint is UTF-8 text.
pub proof fn lemma_decode_encode_key(m: ReportApiKeyView)
    requires
        valid_utf8(m.endpoint),
        m.endpoint.len() < 0x1_0000_0000_0000_0000,
        m.account_salt.len() < 0x1_0000_0000_0000_0000,
        m.nonce.len() < 0x1_0000_0000_0000_0000,
        m.encrypted_contents.len() < 0x1_0000_0000_0000_0000,
    ensures
        decode_key(encode_key(m)) == Some(m),
{
    let f1 = varint_field(1, m.report_api_key_version as nat);
    let f2 = bytes_field(2, m.endpoint);
    let f3 = bytes_field(3, m.account_salt);
    let f4 = bytes_field(4, m.nonce);
    let f5 = bytes_field(5, m.encrypted_contents);
    let m0 = empty_key();
    let m1 = ReportApiKeyView { report_api_key_version: m.report_api_key_version, ..m0 };
    let m2 = ReportApiKeyView { endpoint: m.endpoint, ..m1 };
    let m3 = ReportApiKeyView { account_salt: m.account_salt, ..m2 };
    let m4 = ReportApiKeyView { nonce: m.nonce, ..m3 };
    let m5 = ReportApiKeyView { encrypted_contents: m.encrypted_contents, ..m4 };
    let none = Seq::<u8>::empty();
    let r4 = f5 + none;
    let r3 = f4 + r4;
    let r2 = f3 + r3;
    let r1 = f2 + r2;
    assert(encode_key(m) =~= f1 + r1);
    lemma_decode_step_version(m.report_api_key_version, r1, m0);
    lemma_decode_step_bytes(2, m.endpoint, r2, m1);
    lemma_decode_step_bytes(3, m.account_salt, r3, m2);
    lemma_decode_step_bytes(4, m.nonce, r4, m3);
    lemma_decode_step_bytes(5, m.encrypted_contents, none, m4);
    assert(decode_key_fields(none, m5) == Some(m5));
    assert(m5 == m);
}

impl ReportApiKey {
    /// The encoding of the payload.
    pub fn encode_to_vec(&self) -> (r: Vec<u8>)
        ensures
            r@ == encode_key(self@),
    {
        let mut out: Vec<u8> = Vec::new();
        write_varint_field(&mut out, 1, self.report_api_key_version as u64);
        write_bytes_field(&mut out, 2, self.endpoint.as_slice());
        write_bytes_field(&mut out, 3, self.account_salt.as_slice());
        write_bytes_field(&mut out, 4, self.nonce.as_slice());
        write_bytes_field(&mut out, 5, self.encrypted_contents.as_slice());
        assert(out@ =~= encode_key(self@));
        out
    }

    /// Reads a payload from its encoding.
    pub fn decode(b: &[u8]) -> (r: Result<ReportApiKey, DecodeError>)
        ensures
            match r {
                Ok(m) => decode_key(b@) == Some(m@),
                Err(_) => decode_key(b@) is None,
            },
    {
        let mut m = ReportApiKey {
            report_api_key_version: 0,
            endpoint: Vec::new(),
            account_salt: Vec::new(),
            nonce: Vec::new(),
            encrypted_contents: Vec::new(),
        };
        assert(m@ == empty_key());
        let mut pos: usize = 0;
        assert(b@.subrange(0, b@.len() as int) =~= b@);
        while pos < b.len()
            invariant
                pos <= b@.len(),
                decode_key(b@) == decode_key_fields(b@.subrange(pos as int, b@.len() as int), m@),
            decreases b@.len() - pos,
        {
            let ghost s = b@.subrange(pos as int, b@.len() as int);
            let f = match read_field_at(b, pos) {
                Some(f) => f,
                None => {
                    return Err(DecodeError);
                },
            };
            assert(s.subrange(f.end - pos, s.len() as int) =~= b@.subrange(
                f.end as int,
                b@.len() as int,
            ));
            if f.tag == 1 {
                match f.data {
                    FieldData::Varint(v) => {
                        m.report_api_key_version = (v % 0x1_0000_0000) as u32;
                    },
                    _ => {
                        return Err(DecodeError);
                    },
                }
            } else if f.tag >= 2 && f.tag <= 5 {
                match f.data {
                    FieldData::Bytes { start, end } => {
                        let bytes = copy_range(b, start, end);
                        if f.tag == 2 {
                            if !is_utf8(bytes.as_slice()) {
                                return Err(DecodeError);
                            }
                            m.endpoint = bytes;
                        } else if f.tag == 3 {
                            m.account_salt = bytes;
                        } else if f.tag == 4 {
                            m.nonce = bytes;
                        } else {
                            m.encrypted_contents = bytes;
                        }
                    },
                    _ => {
                        return Err(DecodeError);
                    },
                }
            }
            pos = f.end;
        }
        Ok(m)
    }
}

/// What a capability key holds in encrypted form: the account it belongs to.
#[derive(Clone, Copy, Debug, PartialEq, Eq, Structural)]
pub struct ReportApiKeyEncryptedContents {
    pub account_id: u32,
}

/// The account id after one more field was read.
pub open spec fn merge_contents_field(account_id: u32, f: FieldView) -> Option<u32> {
    if f.tag == 1 {
        match f.value {
            FieldValue::Varint(v) => Some(low_u32(v)),
            _ => None,
        }
    } else {
        Some(account_id)
    }
}

/// The account id that results from reading the fields in `b` one after the
/// other, starting from `account_id`.
pub open spec fn decode_contents_fields(b: Seq<u8>, account_id: u32) -> Option<u32>
    decreases b.len(),
{
    if b.len() == 0 {
        Some(account_id)
    } else {
        match read_field(b) {
            None => None,
            Some(f) => match merge_contents_field(account_id, f) {
                None => None,
                Some(next) => {
                    proof {
                        lemma_read_field_len(b);
                    }
                    decode_contents_fields(b.subrange(f.len as int, b.len() as int), next)
                },
            },
        }
    }
}

/// The account id that the bytes encode.
pub open spec fn decode_contents(b: Seq<u8>) -> Option<u32> {
    decode_contents_fields(b, 0)
}

/// The encoding of the encrypted contents.
pub open spec fn encode_contents(account_id: u32) -> Seq<u8> {
    varint_field(1, account_id as nat)
}

/// Decoding the encoding of the contents gives the account id back.
pub proof fn lemma_decode_encode_contents(account_id: u32)
    ensures
        decode_contents(encode_contents(account_id)) == Some(account_id),
{
    let f1 = encode_contents(account_id);
    if account_id != 0 {
        lemma_read_varint_field(1, account_id as nat, Seq::empty());
        assert(f1 + Seq::<u8>::empty() =~= f1);
        assert(f1.subrange(f1.len() as int, f1.len() as int) =~= Seq::<u8>::empty());
        assert(decode_contents_fields(Seq::<u8>::empty(), account_id) == Some(account_id));
    }
}

impl ReportApiKeyEncryptedContents {
    /// The encoding of the contents.
    pub fn encode_to_vec(&self) -> (r: Vec<u8>)
        ensures
            r@ == encode_contents(self.account_id),
    {
        let mut out: Vec<u8> = Vec::new();
        write_varint_field(&mut out, 1, self.account_id as u64);
        assert(out@ =~= encode_contents(self.account_id));
        out
    }

    /// Reads the contents from their encoding.
    pub fn decode(b: &[u8]) -> (r: Result<ReportApiKeyEncryptedContents, DecodeError>)
        ensures
            match r {
                Ok(m) => decode_contents(b@) == Some(m.account_id),
                Err(_) => decode_contents(b@) is None,
            },
    {
        let mut account_id: u32 = 0;
        let mut pos: usize = 0;
        assert(b@.subrange(0, b@.len() as int) =~= b@);
        while pos < b.len()
            invariant
                pos <= b@.len(),
                decode_contents(b@) == decode_contents_fields(
                    b@.subrange(pos as int, b@.len() as int),
                    account_id,
                ),
            decreases b@.len() - pos,
        {
            let ghost s = b@.subrange(pos as int, b@.len() as int);
            let f = match read_field_at(b, pos) {
                Some(f) => f,
                None => {
                    return Err(DecodeError);
                },
            };
            assert(s.subrange(f.end - pos, s.len() as int) =~= b@.subrange(
                f.end as int,
                b@.len() as int,
            ));
            if f.tag == 1 {
                match f.data {
                    FieldData::Varint(v) => {
                        account_id = (v % 0x1_0000_0000) as u32;
                    },
                    _ => {
                        return Err(DecodeError);
                    },
                }
            }
            pos = f.end;
        }
        Ok(ReportApiKeyEncryptedContents { account_id })
    }
}

/// Model of the [`ReportApiKeyEncryptedAad`].
pub ghost struct AadView {
    pub key_id: u32,
    pub endpoint: Seq<u8>,
    pub account_salt: Seq<u8>,
}

/// What a capability key is bound to: it is authenticated with the key, but
/// not encrypted.
#[derive(Debug, PartialEq, Eq)]
pub struct ReportApiKeyEncryptedAad {
    pub key_id: u32,
    /// The endpoint, as UTF-8 text.
    pub endpoint: Vec<u8>,
    pub account_salt: Vec<u8>,
}

impl View for ReportApiKeyEncryptedAad {
    type V = AadView;

    open spec fn view(&self) -> AadView {
        AadView { key_id: self.key_id, endpoint: self.endpoint@, account_salt: self.account_salt@ }
    }
}

/// The encoding of the associated data.
pub open spec fn encode_aad(a: AadView) -> Seq<u8> {
    varint_field(1, a.key_id as nat) + bytes_field(2, a.endpoint) + bytes_field(3, a.account_salt)
}

impl ReportApiKeyEncryptedAad {
    /// The encoding of the associated data.
    pub fn encode_to_vec(&self) -> (r: Vec<u8>)
        ensures
            r@ == encode_aad(self@),
    {
        let mut out: Vec<u8> = Vec::new();
        write_varint_field(&mut out, 1, self.key_id as u64);
        write_bytes_field(&mut out, 2, self.endpoint.as_slice());
        write_bytes_field(&mut out, 3, self.account_salt.as_slice());
        assert(out@ =~= encode_aad(self@));
        out
    }
}

} // verus!
