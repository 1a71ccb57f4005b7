//! Parameter tables: the ordered mapping from a one-byte key to a value
//! that operations, events and responses carry.

use std::collections::BTreeMap;
use vstd::prelude::*;
use crate::codes::GpType;
use crate::error::DecodeError;
use crate::encoding::{lemma_tagged_round_trip, opt_encodable, opt_serializable, spec_encode_tagged,
    write_tagged};
use crate::value::{opt_view, opt_view_wf, spec_parse, value_at, Value, ValueView, MAX_DEPTH};
use crate::wire::{lemma_u16_at_encoded, lemma_u16_bytes_len, push_u16, read_u16, u16_at, u16_bytes};

verus! {

/// What a parameter table denotes: each key with what its value denotes.
pub open spec fn table_view(m: Map<u8, Option<Value>>) -> Map<u8, Option<ValueView>> {
    Map::new(|k: u8| m.contains_key(k), |k: u8| opt_view(m[k]))
}

/// What decoding `count` more parameters at `cur` gives, when `acc` holds
/// those decoded so far: each is a key byte, a tag byte and a value of
/// that tag. A key that occurs again takes the later value.
pub open spec fn spec_parse_parameters(
    buf: Seq<u8>,
    cur: int,
    count: nat,
    acc: Map<u8, Option<ValueView>>,
) -> Result<(Map<u8, Option<ValueView>>, int), DecodeError>
    decreases count,
{
    if count == 0 {
        Ok((acc, cur))
    } else if cur + 2 > buf.len() {
        Err(DecodeError::TruncatedInput)
    } else {
        match spec_parse(GpType::spec_from_code(buf[cur + 1]), buf, cur + 2, MAX_DEPTH as nat) {
            Err(e) => Err(e),
            Ok((v, c)) => spec_parse_parameters(
                buf,
                c,
                (count - 1) as nat,
                acc.insert(buf[cur], v),
            ),
        }
    }
}

/// What decoding a parameter table at `cur` gives: a 16-bit count, then
/// that many parameters.
pub open spec fn spec_parse_parameter_table(buf: Seq<u8>, cur: int) -> Result<
    (Map<u8, Option<ValueView>>, int),
    DecodeError,
> {
    if cur + 2 > buf.len() {
        Err(DecodeError::TruncatedInput)
    } else {
        spec_parse_parameters(buf, cur + 2, u16_at(buf, cur) as nat, Map::empty())
    }
}

/// Every value of the table is well formed.
pub open spec fn table_wf(m: Map<u8, Option<ValueView>>) -> bool {
    forall|k: u8| m.contains_key(k) ==> opt_view_wf(#[trigger] m[k])
}

/// Maps `k` to `v` in the table.
fn insert_parameter(m: &mut BTreeMap<u8, Option<Value>>, k: u8, v: Option<Value>)
    ensures
        final(m)@ == old(m)@.insert(k, v),
{
    m.insert(k, v);
}

/// Decodes a parameter table at `cur`; gives the table and the place
/// after it.
pub(crate) fn parameter_table_at(buf: &[u8], cur: usize) -> (r: Result<
    (BTreeMap<u8, Option<Value>>, usize),
    DecodeError,
>)
    ensures
        match spec_parse_parameter_table(buf@, cur as int) {
            Ok((m, c)) => r is Ok && table_view(r->Ok_0.0@) == m && table_wf(m) && r->Ok_0.1
                as int == c,
            Err(e) => r == Err::<(BTreeMap<u8, Option<Value>>, usize), DecodeError>(e),
        },
{
    let ghost goal = spec_parse_parameter_table(buf@, cur as int);
    let count = match read_u16(buf, cur) {
        Ok(v) => v,
        Err(e) => {
            return Err(e);
        },
    };
    let mut table: BTreeMap<u8, Option<Value>> = BTreeMap::new();
    let mut at: usize = cur + 2;
    let mut left: u16 = count;
    assert(table_view(table@) =~= Map::empty());
    while left > 0
        invariant
            goal == spec_parse_parameter_table(buf@, cur as int),
            goal == spec_parse_parameters(buf@, at as int, left as nat, table_view(table@)),
            table_wf(table_view(table@)),
        decreases left,
    {
        if buf.len() < 2 || at > buf.len() - 2 {
            return Err(DecodeError::TruncatedInput);
        }
        let key = buf[at];
        let tag = GpType::from_u8(buf[at + 1]);
        let (value, after) = match value_at(tag, buf, at + 2, MAX_DEPTH) {
            Ok(p) => p,
            Err(e) => {
                return Err(e);
            },
        };
        let ghost before = table_view(table@);
        let ghost vv = opt_view(value);
        insert_parameter(&mut table, key, value);
        assert(table_view(table@) =~= before.insert(key, vv));
        at = after;
        left -= 1;
    }
    Ok((table, at))
}

/// How many keys below `upto` the table has.
pub open spec fn spec_count(m: Map<u8, Option<ValueView>>, upto: nat) -> nat
    decreases upto,
{
    if upto == 0 {
        0
    } else {
        spec_count(m, (upto - 1) as nat) + if m.contains_key((upto - 1) as u8) {
            1nat
        } else {
            0nat
        }
    }
}

/// The bytes of the parameters with a key below `upto`, by increasing
/// key: for each the key byte, then the tagged value.
pub open spec fn spec_encode_parameters(m: Map<u8, Option<ValueView>>, upto: nat) -> Seq<u8>
    decreases upto,
{
    if upto == 0 {
        Seq::empty()
    } else {
        let key = (upto - 1) as u8;
        spec_encode_parameters(m, (upto - 1) as nat) + if m.contains_key(key) {
            seq![key] + spec_encode_tagged(m[key])
        } else {
            Seq::empty()
        }
    }
}

/// The bytes of a parameter table: the 16-bit number of its parameters,
/// then the parameters by increasing key.
pub open spec fn spec_encode_table(m: Map<u8, Option<ValueView>>) -> Seq<u8> {
    u16_bytes(spec_count(m, 256) as int) + spec_encode_parameters(m, 256)
}

/// Every value of the table has a wire form.
pub open spec fn table_serializable(m: Map<u8, Option<ValueView>>) -> bool {
    forall|k: u8| m.contains_key(k) ==> opt_serializable(#[trigger] m[k])
}

/// A table has at most as many keys below `upto` as there are bytes
/// below it.
pub proof fn lemma_count_bound(m: Map<u8, Option<ValueView>>, upto: nat)
    ensures
        spec_count(m, upto) <= upto,
    decreases upto,
{
    if upto > 0 {
        lemma_count_bound(m, (upto - 1) as nat);
    }
}

/// Every value of the table can be written and read back.
pub open spec fn table_encodable(m: Map<u8, Option<ValueView>>) -> bool {
    forall|k: u8| m.contains_key(k) ==> opt_encodable(#[trigger] m[k], MAX_DEPTH as nat)
}

/// The table `m` without the keys from `upto` on.
pub open spec fn table_below(m: Map<u8, Option<ValueView>>, upto: nat) -> Map<
    u8,
    Option<ValueView>,
> {
    Map::new(|k: u8| m.contains_key(k) && (k as nat) < upto, |k: u8| m[k])
}

/// The count and the bytes of the parameters below a key grow with the
/// key: those below `lo` open those below `hi`.
proof fn lemma_parameters_prefix(m: Map<u8, Option<ValueView>>, lo: nat, hi: nat)
    requires
        lo <= hi,
    ensures
        spec_count(m, lo) <= spec_count(m, hi),
        spec_encode_parameters(m, lo).len() <= spec_encode_parameters(m, hi).len(),
        spec_encode_parameters(m, hi).subrange(0, spec_encode_parameters(m, lo).len() as int)
            == spec_encode_parameters(m, lo),
    decreases hi - lo,
{
    if lo < hi {
        lemma_parameters_prefix(m, lo, (hi - 1) as nat);
    }
}

/// Decoding the parameters from the key `upto` on, with those below it
/// decoded already, gives the whole table.
proof fn lemma_parameters_round_trip(
    m: Map<u8, Option<ValueView>>,
    buf: Seq<u8>,
    base: int,
    upto: nat,
)
    requires
        table_encodable(m),
        upto <= 256,
        0 <= base,
        base + spec_encode_parameters(m, 256).len() <= buf.len(),
        buf.subrange(base, base + spec_encode_parameters(m, 256).len())
            == spec_encode_parameters(m, 256),
    ensures
        spec_parse_parameters(
            buf,
            base + spec_encode_parameters(m, upto).len(),
            (spec_count(m, 256) - spec_count(m, upto)) as nat,
            table_below(m, upto),
        ) == Ok::<(Map<u8, Option<ValueView>>, int), DecodeError>(
            (m, base + spec_encode_parameters(m, 256).len()),
        ),
    decreases 256 - upto,
{
    let all = spec_encode_parameters(m, 256);
    let here = spec_encode_parameters(m, upto);
    let sofar = table_below(m, upto);
    if upto == 256 {
        assert(sofar =~= m);
    } else {
        let key = upto as u8;
        let next = spec_encode_parameters(m, upto + 1);
        lemma_parameters_prefix(m, upto + 1, 256);
        lemma_parameters_round_trip(m, buf, base, upto + 1);
        if m.contains_key(key) {
            let value = m[key];
            let tagged = spec_encode_tagged(value);
            let hl = here.len() as int;
            let tl = tagged.len() as int;
            let at = base + hl;
            let whole = buf.subrange(base, base + all.len());
            assert(all[hl] == next[hl]);
            assert(buf.subrange(at + 1, at + 1 + tl) =~= whole.subrange(hl + 1, hl + 1 + tl));
            assert(all.subrange(hl + 1, hl + 1 + tl) =~= next.subrange(hl + 1, hl + 1 + tl));
            assert(next.subrange(hl + 1, hl + 1 + tl) =~= tagged);
            lemma_tagged_round_trip(value, MAX_DEPTH as nat, buf, at + 1);
            assert(sofar.insert(key, value) =~= table_below(m, upto + 1));
        } else {
            assert(sofar =~= table_below(m, upto + 1));
        }
    }
}

/// Decoding the bytes of a parameter table gives the table back, and the
/// place after its bytes, wherever in a buffer they stand.
pub proof fn lemma_table_round_trip(m: Map<u8, Option<ValueView>>, buf: Seq<u8>, cur: int)
    requires
        table_encodable(m),
        0 <= cur,
        cur + spec_encode_table(m).len() <= buf.len(),
        buf.subrange(cur, cur + spec_encode_table(m).len()) == spec_encode_table(m),
    ensures
        spec_parse_parameter_table(buf, cur) == Ok::<(Map<u8, Option<ValueView>>, int), DecodeError>(
            (m, cur + spec_encode_table(m).len()),
        ),
{
    let enc = spec_encode_table(m);
    let part = buf.subrange(cur, cur + enc.len());
    let body = spec_encode_parameters(m, 256);
    let n = body.len() as int;
    let count = spec_count(m, 256) as int;
    lemma_count_bound(m, 256);
    lemma_u16_bytes_len(count);
    assert(buf.subrange(cur, cur + 2) =~= part.subrange(0, 2));
    assert(part.subrange(0, 2) =~= u16_bytes(count));
    lemma_u16_at_encoded(buf, cur, count);
    assert(buf.subrange(cur + 2, cur + 2 + n) =~= part.subrange(2, 2 + n));
    assert(part.subrange(2, 2 + n) =~= body);
    assert(table_below(m, 0) =~= Map::<u8, Option<ValueView>>::empty());
    lemma_parameters_round_trip(m, buf, cur + 2, 0);
}

/// Appends the bytes of the table `m` to `out`; says whether every value
/// has a wire form.
pub(crate) fn write_table(m: &BTreeMap<u8, Option<Value>>, out: &mut Vec<u8>) -> (ok: bool)
    ensures
        ok == table_serializable(table_view(m@)),
        ok ==> final(out)@ == old(out)@ + spec_encode_table(table_view(m@)),
{
    broadcast use vstd::std_specs::btree::group_btree_axioms;

    let ghost all = table_view(m@);
    let mut count: u16 = 0;
    let mut body: Vec<u8> = Vec::new();
    let mut k: usize = 0;
    while k < 256
        invariant
            k <= 256,
            all == table_view(m@),
            count as nat == spec_count(all, k as nat),
            count <= k,
            body@ == spec_encode_parameters(all, k as nat),
            forall|j: u8| j < k && all.contains_key(j) ==> opt_serializable(#[trigger] all[j]),
        decreases 256 - k,
    {
        let key = k as u8;
        match m.get(&key) {
            Some(v) => {
                assert(all.contains_key(key) && all[key] == opt_view(*v));
                body.push(key);
                if !write_tagged(v, &mut body) {
                    return false;
                }
                count += 1;
            },
            None => {
            },
        }
        k += 1;
    }
    push_u16(out, count);
    let mut body = body;
    out.append(&mut body);
    true
}

impl Value {
    /// Decodes a parameter table at `*cur` and moves `*cur` past it: a
    /// 16-bit count, then that many parameters, each a key byte, a tag byte
    /// and a value of that tag. On an error `*cur` is left as it was.
    pub fn parse_parameter_table(buf: &[u8], cur: &mut usize) -> (r: Result<
        BTreeMap<u8, Option<Value>>,
        DecodeError,
    >)
        ensures
            match spec_parse_parameter_table(buf@, *old(cur) as int) {
                Ok((m, c)) => r is Ok && table_view(r->Ok_0@) == m && table_wf(m) && *final(cur)
                    as int == c,
                Err(e) => r == Err::<BTreeMap<u8, Option<Value>>, DecodeError>(e) && *final(cur)
                    == *old(cur),
            },
    {
        match parameter_table_at(buf, *cur) {
            Ok((m, c)) => {
                *cur = c;
                Ok(m)
            },
            Err(e) => Err(e),
        }
    }
}

} // verus!
