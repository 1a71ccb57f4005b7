//! The wire form of values, and the law that ties it to decoding.

use vstd::prelude::*;
use vstd::utf8::{encode_utf8, encode_utf8_decode_utf8, encode_utf8_valid_utf8};
use crate::codes::GpType;
use crate::error::DecodeError;
use crate::text::{keeps, lemma_strip_nul_unchanged};
use crate::value::{distinct_keys, entries_view, opt_view, spec_parse, spec_parse_entries,
    spec_parse_hashtable, table_insert, Value, ValueView};
use crate::wire::{lemma_u16_at_encoded, lemma_u16_bytes_len, lemma_u32_at_encoded,
    lemma_u32_bytes_len, push_all, push_u16, push_u32, u16_bytes, u32_bytes};

verus! {

/// The tag under which a value is written; an absent value is written
/// under `Null`.
pub open spec fn tag_of(v: Option<ValueView>) -> GpType {
    match v {
        None => GpType::Null,
        Some(ValueView::Dictionary) => GpType::Dictionary,
        Some(ValueView::StringArray(_)) => GpType::StringArray,
        Some(ValueView::Byte(_)) => GpType::Byte,
        Some(ValueView::Custom) => GpType::Custom,
        Some(ValueView::Double(_)) => GpType::Double,
        Some(ValueView::EventData) => GpType::EventData,
        Some(ValueView::Float(_)) => GpType::Float,
        Some(ValueView::HashTable(_)) => GpType::Hashtable,
        Some(ValueView::Integer(_)) => GpType::Integer,
        Some(ValueView::Short(_)) => GpType::Short,
        Some(ValueView::Long(_)) => GpType::Long,
        Some(ValueView::IntArray(_)) => GpType::IntegerArray,
        Some(ValueView::Boolean(_)) => GpType::Boolean,
        Some(ValueView::OperationResponse) => GpType::OperationResponse,
        Some(ValueView::OperationRequest) => GpType::OperationRequest,
        Some(ValueView::String(_)) => GpType::String,
        Some(ValueView::ByteArray(_)) => GpType::ByteArray,
        Some(ValueView::Array) => GpType::Array,
        Some(ValueView::ObjectArray) => GpType::ObjectArray,
    }
}

/// The 32-bit pattern of a signed integer (two's complement).
pub open spec fn unsigned32(i: i32) -> int {
    if i >= 0 {
        i as int
    } else {
        i + 0x1_0000_0000
    }
}

/// The bytes of a value after its tag. Only the values with an
/// implemented encoding have any.
pub open spec fn spec_encode(v: ValueView) -> Seq<u8>
    decreases v, 0nat,
{
    match v {
        ValueView::Byte(b) => seq![b],
        ValueView::Integer(i) => u32_bytes(unsigned32(i)),
        ValueView::String(s) => u16_bytes(encode_utf8(s).len() as int) + encode_utf8(s),
        ValueView::ByteArray(b) => u32_bytes(b.len() as int) + b,
        ValueView::HashTable(entries) => u16_bytes(entries.len() as int) + spec_encode_entries(
            entries,
            entries.len(),
        ),
        _ => Seq::empty(),
    }
}

/// The tag of a value that may be absent, then its bytes.
pub open spec fn spec_encode_tagged(v: Option<ValueView>) -> Seq<u8>
    decreases v, 1nat,
{
    seq![tag_of(v).spec_code()] + (match v {
        Some(x) => spec_encode(x),
        None => Seq::empty(),
    })
}

/// The bytes of the first `n` entries of a table: for each its tagged key,
/// then its tagged value.
pub open spec fn spec_encode_entries(
    entries: Seq<(Option<ValueView>, Option<ValueView>)>,
    n: nat,
) -> Seq<u8>
    decreases entries, n,
{
    if n == 0 || n > entries.len() {
        Seq::empty()
    } else {
        spec_encode_entries(entries, (n - 1) as nat) + spec_encode_tagged(entries[n - 1].0)
            + spec_encode_tagged(entries[n - 1].1)
    }
}

/// Whether a value can be written and read back: it is of a kind with an
/// implemented encoding, its lengths fit their prefixes, its texts hold
/// no NUL, and its tables have distinct keys and are nested at most
/// `depth` deep.
pub open spec fn encodable(v: ValueView, depth: nat) -> bool
    decreases v,
{
    match v {
        ValueView::Byte(_) => true,
        ValueView::Integer(_) => true,
        ValueView::String(s) => encode_utf8(s).len() <= 0xffff && forall|i: int|
            0 <= i < s.len() ==> keeps(#[trigger] s[i]),
        ValueView::ByteArray(b) => b.len() <= 0xffff_ffff,
        ValueView::HashTable(entries) => {
            &&& depth > 0
            &&& entries.len() <= 0xffff
            &&& distinct_keys(entries)
            &&& forall|i: int|
                0 <= i < entries.len() ==> opt_encodable(
                    (#[trigger] entries[i]).0,
                    (depth - 1) as nat,
                ) && opt_encodable(entries[i].1, (depth - 1) as nat)
        },
        _ => false,
    }
}

/// [`encodable`] for a value that may be absent.
pub open spec fn opt_encodable(v: Option<ValueView>, depth: nat) -> bool
    decreases v,
{
    match v {
        Some(x) => encodable(x, depth),
        None => true,
    }
}

/// Whether a value has a wire form: it is of a kind with an implemented
/// encoding and its lengths fit their prefixes, in it and in the keys and
/// values of its tables.
pub open spec fn serializable(v: ValueView) -> bool
    decreases v,
{
    match v {
        ValueView::Byte(_) => true,
        ValueView::Integer(_) => true,
        ValueView::String(s) => encode_utf8(s).len() <= 0xffff,
        ValueView::ByteArray(b) => b.len() <= 0xffff_ffff,
        ValueView::HashTable(entries) => {
            &&& entries.len() <= 0xffff
            &&& forall|i: int|
                0 <= i < entries.len() ==> opt_serializable((#[trigger] entries[i]).0)
                    && opt_serializable(entries[i].1)
        },
        _ => false,
    }
}

/// [`serializable`] for a value that may be absent.
pub open spec fn opt_serializable(v: Option<ValueView>) -> bool
    decreases v,
{
    match v {
        Some(x) => serializable(x),
        None => true,
    }
}

/// A value that can be written and read back has a wire form.
pub proof fn lemma_encodable_is_serializable(v: ValueView, depth: nat)
    requires
        encodable(v, depth),
    ensures
        serializable(v),
    decreases v,
{
    match v {
        ValueView::HashTable(entries) => {
            assert forall|i: int| 0 <= i < entries.len() implies opt_serializable(
                (#[trigger] entries[i]).0,
            ) && opt_serializable(entries[i].1) by {
                match entries[i].0 {
                    Some(x) => lemma_encodable_is_serializable(x, (depth - 1) as nat),
                    None => {},
                }
                match entries[i].1 {
                    Some(x) => lemma_encodable_is_serializable(x, (depth - 1) as nat),
                    None => {},
                }
            }
        },
        _ => {},
    }
}

/// The byte of the tag under which `v` is written.
fn tag_byte(v: &Option<Value>) -> (r: u8)
    ensures
        r == tag_of(opt_view(*v)).spec_code(),
{
    match v {
        None => GpType::Null.to_u8(),
        Some(Value::Dictionary) => GpType::Dictionary.to_u8(),
        Some(Value::StringArray(_)) => GpType::StringArray.to_u8(),
        Some(Value::Byte(_)) => GpType::Byte.to_u8(),
        Some(Value::Custom) => GpType::Custom.to_u8(),
        Some(Value::Double(_)) => GpType::Double.to_u8(),
        Some(Value::EventData) => GpType::EventData.to_u8(),
        Some(Value::Float(_)) => GpType::Float.to_u8(),
        Some(Value::HashTable(_)) => GpType::Hashtable.to_u8(),
        Some(Value::Integer(_)) => GpType::Integer.to_u8(),
        Some(Value::Short(_)) => GpType::Short.to_u8(),
        Some(Value::Long(_)) => GpType::Long.to_u8(),
        Some(Value::IntArray(_)) => GpType::IntegerArray.to_u8(),
        Some(Value::Boolean(_)) => GpType::Boolean.to_u8(),
        Some(Value::OperationResponse) => GpType::OperationResponse.to_u8(),
        Some(Value::OperationRequest) => GpType::OperationRequest.to_u8(),
        Some(Value::String(_)) => GpType::String.to_u8(),
        Some(Value::ByteArray(_)) => GpType::ByteArray.to_u8(),
        Some(Value::Array) => GpType::Array.to_u8(),
        Some(Value::ObjectArray) => GpType::ObjectArray.to_u8(),
    }
}

/// Appends the tag of `v` and its bytes to `out`; says whether `v` has a
/// wire form.
pub(crate) fn write_tagged(v: &Option<Value>, out: &mut Vec<u8>) -> (ok: bool)
    ensures
        ok == opt_serializable(opt_view(*v)),
        ok ==> final(out)@ == old(out)@ + spec_encode_tagged(opt_view(*v)),
    decreases v, 1nat,
{
    out.push(tag_byte(v));
    let ok = match v {
        Some(x) => write_value(x, out),
        None => true,
    };
    ok
}

/// Every key and value of `entries` has a wire form.
pub open spec fn entries_serializable(entries: Seq<(Option<ValueView>, Option<ValueView>)>) -> bool {
    forall|i: int|
        0 <= i < entries.len() ==> opt_serializable((#[trigger] entries[i]).0)
            && opt_serializable(entries[i].1)
}

/// Appends the tagged keys and values of `entries` to `out`; says whether
/// all of them have a wire form.
fn write_entries(entries: &Vec<(Option<Value>, Option<Value>)>, out: &mut Vec<u8>) -> (ok: bool)
    ensures
        ok == entries_serializable(entries_view(entries@)),
        ok ==> final(out)@ == old(out)@ + spec_encode_entries(
            entries_view(entries@),
            entries@.len(),
        ),
    decreases entries, 0nat,
{
    let ghost all = entries_view(entries@);
    let mut i: usize = 0;
    while i < entries.len()
        invariant
            i <= entries@.len(),
            all == entries_view(entries@),
            out@ == old(out)@ + spec_encode_entries(all, i as nat),
            forall|j: int|
                0 <= j < i ==> opt_serializable((#[trigger] all[j]).0) && opt_serializable(
                    all[j].1,
                ),
        decreases entries@.len() - i,
    {
        if !write_tagged(&entries[i].0, out) {
            assert(!opt_serializable(all[i as int].0));
            return false;
        }
        if !write_tagged(&entries[i].1, out) {
            assert(!opt_serializable(all[i as int].1));
            return false;
        }
        i += 1;
    }
    true
}

/// Appends the bytes of `v` to `out`; says whether `v` has a wire form.
fn write_value(v: &Value, out: &mut Vec<u8>) -> (ok: bool)
    ensures
        ok == serializable(v@),
        ok ==> final(out)@ == old(out)@ + spec_encode(v@),
    decreases v, 0nat,
{
    match v {
        Value::Byte(b) => {
            out.push(*b);
            true
        },
        Value::Integer(i) => {
            let bits: u32 = if *i >= 0 {
                *i as u32
            } else {
                (*i + i32::MAX + 1) as u32 + 0x8000_0000
            };
            push_u32(out, bits);
            true
        },
        Value::String(s) => {
            let bytes = s.as_str().as_bytes();
            if bytes.len() > 0xffff {
                return false;
            }
            push_u16(out, bytes.len() as u16);
            push_all(out, bytes);
            true
        },
        Value::ByteArray(b) => {
            if b.len() > 0xffff_ffff {
                return false;
            }
            push_u32(out, b.len() as u32);
            push_all(out, b.as_slice());
            true
        },
        Value::HashTable(entries) => {
            if entries.len() > 0xffff {
                return false;
            }
            push_u16(out, entries.len() as u16);
            let ok = write_entries(entries, out);
            ok
        },
        _ => false,
    }
}

impl Value {
    /// The bytes of the value on the wire, without its tag; nothing for a
    /// value that has no wire form.
    pub fn serialize(&self) -> (r: Option<Vec<u8>>)
        ensures
            r is Some <==> serializable(self@),
            r matches Some(bytes) ==> bytes@ == spec_encode(self@),
    {
        let mut out: Vec<u8> = Vec::new();
        if write_value(self, &mut out) {
            Some(out)
        } else {
            None
        }
    }
}

/// Decoding the bytes of a value gives the value back, and the place
/// after its bytes: wherever in a buffer the bytes of an encodable value
/// stand, decoding there under the value's tag yields the value.
pub proof fn lemma_value_round_trip(v: ValueView, depth: nat, buf: Seq<u8>, cur: int)
    requires
        encodable(v, depth),
        0 <= cur,
        cur + spec_encode(v).len() <= buf.len(),
        buf.subrange(cur, cur + spec_encode(v).len()) == spec_encode(v),
    ensures
        spec_parse(tag_of(Some(v)), buf, cur, depth) == Ok::<(Option<ValueView>, int), DecodeError>(
            (Some(v), cur + spec_encode(v).len()),
        ),
    decreases v, 0nat,
{
    let enc = spec_encode(v);
    let part = buf.subrange(cur, cur + enc.len());
    match v {
        ValueView::Byte(b) => {
            assert(part[0] == buf[cur]);
        },
        ValueView::Integer(i) => {
            lemma_u32_bytes_len(unsigned32(i));
            lemma_u32_at_encoded(buf, cur, unsigned32(i));
        },
        ValueView::String(s) => {
            let text = encode_utf8(s);
            let n = text.len() as int;
            lemma_u16_bytes_len(n);
            assert(buf.subrange(cur, cur + 2) =~= part.subrange(0, 2));
            assert(part.subrange(0, 2) =~= u16_bytes(n));
            lemma_u16_at_encoded(buf, cur, n);
            assert(buf.subrange(cur + 2, cur + 2 + n) =~= part.subrange(2, 2 + n));
            assert(part.subrange(2, 2 + n) =~= text);
            encode_utf8_valid_utf8(s);
            encode_utf8_decode_utf8(s);
            lemma_strip_nul_unchanged(s);
        },
        ValueView::ByteArray(b) => {
            let n = b.len() as int;
            lemma_u32_bytes_len(n);
            assert(buf.subrange(cur, cur + 4) =~= part.subrange(0, 4));
            assert(part.subrange(0, 4) =~= u32_bytes(n));
            lemma_u32_at_encoded(buf, cur, n);
            assert(buf.subrange(cur + 4, cur + 4 + n) =~= part.subrange(4, 4 + n));
            assert(part.subrange(4, 4 + n) =~= b);
        },
        ValueView::HashTable(entries) => {
            let body = spec_encode_entries(entries, entries.len());
            let n = body.len() as int;
            lemma_u16_bytes_len(entries.len() as int);
            assert(buf.subrange(cur, cur + 2) =~= part.subrange(0, 2));
            assert(part.subrange(0, 2) =~= u16_bytes(entries.len() as int));
            lemma_u16_at_encoded(buf, cur, entries.len() as int);
            assert(buf.subrange(cur + 2, cur + 2 + n) =~= part.subrange(2, 2 + n));
            assert(part.subrange(2, 2 + n) =~= body);
            assert(entries.subrange(0, 0) =~= Seq::empty());
            lemma_entries_round_trip(entries, (depth - 1) as nat, buf, cur + 2, 0);
            assert(spec_parse_hashtable(buf, cur, depth) == Ok::<(ValueView, int), DecodeError>(
                (v, cur + enc.len()),
            ));
        },
        _ => {},
    }
}

/// Decoding a tagged value gives the value back: the tag byte decodes to
/// the value's tag, and the bytes after it to the value.
pub proof fn lemma_tagged_round_trip(v: Option<ValueView>, depth: nat, buf: Seq<u8>, cur: int)
    requires
        opt_encodable(v, depth),
        0 <= cur,
        cur + spec_encode_tagged(v).len() <= buf.len(),
        buf.subrange(cur, cur + spec_encode_tagged(v).len()) == spec_encode_tagged(v),
    ensures
        cur + 1 <= buf.len(),
        spec_parse(GpType::spec_from_code(buf[cur]), buf, cur + 1, depth) == Ok::<
            (Option<ValueView>, int),
            DecodeError,
        >((v, cur + spec_encode_tagged(v).len())),
    decreases v, 1nat,
{
    let enc = spec_encode_tagged(v);
    let part = buf.subrange(cur, cur + enc.len());
    assert(part[0] == buf[cur]);
    tag_of(v).lemma_code_round_trip();
    match v {
        Some(x) => {
            let body = spec_encode(x);
            let n = body.len() as int;
            assert(buf.subrange(cur + 1, cur + 1 + n) =~= part.subrange(1, 1 + n));
            assert(part.subrange(1, 1 + n) =~= body);
            lemma_value_round_trip(x, depth, buf, cur + 1);
        },
        None => {},
    }
}

/// Decoding the entries of a table from the `done`-th on, with the
/// entries before it decoded already, gives the whole table.
proof fn lemma_entries_round_trip(
    entries: Seq<(Option<ValueView>, Option<ValueView>)>,
    depth: nat,
    buf: Seq<u8>,
    base: int,
    done: nat,
)
    requires
        done <= entries.len(),
        distinct_keys(entries),
        forall|i: int|
            0 <= i < entries.len() ==> opt_encodable((#[trigger] entries[i]).0, depth)
                && opt_encodable(entries[i].1, depth),
        0 <= base,
        base + spec_encode_entries(entries, entries.len()).len() <= buf.len(),
        buf.subrange(base, base + spec_encode_entries(entries, entries.len()).len())
            == spec_encode_entries(entries, entries.len()),
    ensures
        spec_parse_entries(
            buf,
            base + spec_encode_entries(entries, done).len(),
            (entries.len() - done) as nat,
            depth,
            entries.subrange(0, done as int),
        ) == Ok::<(Seq<(Option<ValueView>, Option<ValueView>)>, int), DecodeError>(
            (entries, base + spec_encode_entries(entries, entries.len()).len()),
        ),
    decreases entries, entries.len() - done,
{
    let all = spec_encode_entries(entries, entries.len());
    let sofar = entries.subrange(0, done as int);
    if done == entries.len() {
        assert(sofar =~= entries);
    } else {
        let (k, v) = entries[done as int];
        let before = spec_encode_entries(entries, done);
        let key_bytes = spec_encode_tagged(k);
        let value_bytes = spec_encode_tagged(v);
        let after = spec_encode_entries(entries, done + 1);
        lemma_prefix_of_entries(entries, done + 1);
        let bl = before.len() as int;
        let kl = key_bytes.len() as int;
        let vl = value_bytes.len() as int;
        let at = base + bl;
        let whole = buf.subrange(base, base + all.len());
        assert(buf.subrange(at, at + kl) =~= whole.subrange(bl, bl + kl));
        assert(after.subrange(bl, bl + kl) =~= key_bytes);
        assert(whole.subrange(bl, bl + kl) =~= key_bytes);
        lemma_tagged_round_trip(k, depth, buf, at);
        let mid = at + kl;
        assert(buf.subrange(mid, mid + vl) =~= whole.subrange(bl + kl, bl + kl + vl));
        assert(after.subrange(bl + kl, bl + kl + vl) =~= value_bytes);
        assert(whole.subrange(bl + kl, bl + kl + vl) =~= value_bytes);
        lemma_tagged_round_trip(v, depth, buf, mid);
        assert(table_insert(sofar, k, v) =~= entries.subrange(0, done as int + 1));
        lemma_entries_round_trip(entries, depth, buf, base, done + 1);
    }
}

/// The bytes of the first `n` entries open the bytes of all of them.
proof fn lemma_prefix_of_entries(entries: Seq<(Option<ValueView>, Option<ValueView>)>, n: nat)
    requires
        n <= entries.len(),
    ensures
        spec_encode_entries(entries, n).len() <= spec_encode_entries(
            entries,
            entries.len(),
        ).len(),
        spec_encode_entries(entries, entries.len()).subrange(
            0,
            spec_encode_entries(entries, n).len() as int,
        ) == spec_encode_entries(entries, n),
    decreases entries.len() - n,
{
    let all = spec_encode_entries(entries, entries.len());
    if n < entries.len() {
        lemma_prefix_of_entries(entries, n + 1);
        let next = spec_encode_entries(entries, n + 1);
        let here = spec_encode_entries(entries, n);
        assert(all.subrange(0, here.len() as int) =~= all.subrange(
            0,
            next.len() as int,
        ).subrange(0, here.len() as int));
    }
}

} // verus!
