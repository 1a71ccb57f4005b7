//! The inner protocol's type-tagged values.

use vstd::prelude::*;
use vstd::utf8::valid_utf8;
use crate::codes::GpType;
use crate::error::DecodeError;
use crate::text::{decode_text, spec_text};
use crate::wire::{as_signed32, read_u16, read_u32, u16_at, u32_at};

verus! {

/// A 32-bit float, held as its bit pattern.
#[derive(Debug, Clone, Copy, Hash, PartialEq, Eq, PartialOrd, Ord)]
pub struct Float {
    val: u32,
}

impl View for Float {
    type V = u32;

    closed spec fn view(&self) -> u32 {
        self.val
    }
}

impl Float {
    /// The float with the given bit pattern.
    pub fn from_bits(bits: u32) -> (r: Float)
        ensures
            r@ == bits,
    {
        Float { val: bits }
    }

    /// The bit pattern of the float.
    pub fn to_bits(self) -> (r: u32)
        ensures
            r == self@,
    {
        self.val
    }
}

/// A 64-bit float, held as its bit pattern.
#[derive(Debug, Clone, Copy, Hash, PartialEq, Eq, PartialOrd, Ord)]
pub struct Double {
    val: u64,
}

impl View for Double {
    type V = u64;

    closed spec fn view(&self) -> u64 {
        self.val
    }
}

impl Double {
    /// The float with the given bit pattern.
    pub fn from_bits(bits: u64) -> (r: Double)
        ensures
            r@ == bits,
    {
        Double { val: bits }
    }

    /// The bit pattern of the float.
    pub fn to_bits(self) -> (r: u64)
        ensures
            r == self@,
    {
        self.val
    }
}

/// A value of the inner protocol.
#[derive(Debug, PartialEq, Eq, PartialOrd, Ord)]
pub enum Value {
    Dictionary,
    StringArray(Vec<String>),
    Byte(u8),
    Custom,
    Double(Double),
    EventData,
    Float(Float),
    /// A mapping from keys to values, either of which may be absent. The
    /// entries stand in the order in which their keys first appeared, and
    /// no key occurs twice. A key is told from another by [`Value::same`],
    /// which compares tables as mappings, whatever the order of their
    /// entries; `==` and the order on values go by the entries as they
    /// stand.
    HashTable(Vec<(Option<Value>, Option<Value>)>),
    Integer(i32),
    Short(i16),
    Long(i64),
    IntArray(Vec<i32>),
    Boolean(bool),
    OperationResponse,
    OperationRequest,
    String(String),
    ByteArray(Vec<u8>),
    Array,
    ObjectArray,
}

/// What a [`Value`] denotes.
pub enum ValueView {
    Dictionary,
    StringArray(Seq<Seq<char>>),
    Byte(u8),
    Custom,
    Double(u64),
    EventData,
    Float(u32),
    HashTable(Seq<(Option<ValueView>, Option<ValueView>)>),
    Integer(i32),
    Short(i16),
    Long(i64),
    IntArray(Seq<i32>),
    Boolean(bool),
    OperationResponse,
    OperationRequest,
    String(Seq<char>),
    ByteArray(Seq<u8>),
    Array,
    ObjectArray,
}

/// What the entries of a table denote, entry by entry.
pub open spec fn entries_view(entries: Seq<(Option<Value>, Option<Value>)>) -> Seq<
    (Option<ValueView>, Option<ValueView>),
>
    decreases entries,
{
    Seq::new(
        entries.len(),
        |i: int|
            if 0 <= i < entries.len() {
                (opt_view(entries[i].0), opt_view(entries[i].1))
            } else {
                (None, None)
            },
    )
}

/// What an optional value denotes.
pub open spec fn opt_view(v: Option<Value>) -> Option<ValueView>
    decreases v,
{
    match v {
        Some(x) => Some(x.view()),
        None => None,
    }
}

impl View for Value {
    type V = ValueView;

    open spec fn view(&self) -> ValueView
        decreases self,
    {
        match self {
            Value::Dictionary => ValueView::Dictionary,
            Value::StringArray(a) => ValueView::StringArray(a@.map_values(|s: String| s@)),
            Value::Byte(b) => ValueView::Byte(*b),
            Value::Custom => ValueView::Custom,
            Value::Double(d) => ValueView::Double(d@),
            Value::EventData => ValueView::EventData,
            Value::Float(f) => ValueView::Float(f@),
            Value::HashTable(entries) => ValueView::HashTable(entries_view(entries@)),
            Value::Integer(i) => ValueView::Integer(*i),
            Value::Short(i) => ValueView::Short(*i),
            Value::Long(i) => ValueView::Long(*i),
            Value::IntArray(a) => ValueView::IntArray(a@),
            Value::Boolean(b) => ValueView::Boolean(*b),
            Value::OperationResponse => ValueView::OperationResponse,
            Value::OperationRequest => ValueView::OperationRequest,
            Value::String(s) => ValueView::String(s@),
            Value::ByteArray(b) => ValueView::ByteArray(b@),
            Value::Array => ValueView::Array,
            Value::ObjectArray => ValueView::ObjectArray,
        }
    }
}


/// How deeply tables may be nested in one another: a table at the top is
/// at depth one.
pub const MAX_DEPTH: usize = 32;

/// Whether two values are the same, where tables are compared as
/// mappings: two tables are the same where each entry of either has its
/// like in the other, in whatever order the entries stand. Values that are
/// no tables are the same where they are equal.
pub open spec fn equiv(a: ValueView, b: ValueView) -> bool
    decreases a, 0nat,
{
    match a {
        ValueView::HashTable(ea) => match b {
            ValueView::HashTable(eb) => tables_equiv(ea, eb),
            _ => false,
        },
        _ => a == b,
    }
}

/// Two tables are the same as mappings: each entry of either has its like
/// in the other.
pub open spec fn tables_equiv(
    ea: Seq<(Option<ValueView>, Option<ValueView>)>,
    eb: Seq<(Option<ValueView>, Option<ValueView>)>,
) -> bool
    decreases ea, ea.len() + 1,
{
    &&& forall|i: int| 0 <= i < ea.len() ==> entry_in(#[trigger] ea[i], eb)
    &&& forall|j: int| 0 <= j < eb.len() ==> entry_from(ea, #[trigger] eb[j], ea.len())
}

/// [`equiv`] for values that may be absent: both absent, or both there and
/// the same.
pub open spec fn opt_equiv(a: Option<ValueView>, b: Option<ValueView>) -> bool
    decreases a, 1nat,
{
    match a {
        Some(x) => b matches Some(y) && equiv(x, y),
        None => b is None,
    }
}

/// Two entries are alike: their keys are the same and their values are.
pub open spec fn entry_equiv(
    a: (Option<ValueView>, Option<ValueView>),
    b: (Option<ValueView>, Option<ValueView>),
) -> bool
    decreases a, 2nat,
{
    opt_equiv(a.0, b.0) && opt_equiv(a.1, b.1)
}

/// The entry `x` has its like among `entries`.
pub open spec fn entry_in(
    x: (Option<ValueView>, Option<ValueView>),
    entries: Seq<(Option<ValueView>, Option<ValueView>)>,
) -> bool
    decreases x, 3nat,
{
    exists|j: int| 0 <= j < entries.len() && entry_equiv(x, #[trigger] entries[j])
}

/// The entry `y` has its like among the first `n` of `entries`.
pub open spec fn entry_from(
    entries: Seq<(Option<ValueView>, Option<ValueView>)>,
    y: (Option<ValueView>, Option<ValueView>),
    n: nat,
) -> bool
    decreases entries, n,
{
    if n == 0 || n > entries.len() {
        false
    } else {
        entry_equiv(entries[n - 1], y) || entry_from(entries, y, (n - 1) as nat)
    }
}

/// Whether some entry of `entries` has a key that is the same as `k`.
pub open spec fn has_key(
    entries: Seq<(Option<ValueView>, Option<ValueView>)>,
    k: Option<ValueView>,
) -> bool {
    exists|i: int| 0 <= i < entries.len() && opt_equiv((#[trigger] entries[i]).0, k)
}

/// The entry at `i` is the first of `entries` whose key is the same as
/// `k`.
pub open spec fn is_first_key(
    entries: Seq<(Option<ValueView>, Option<ValueView>)>,
    k: Option<ValueView>,
    i: int,
) -> bool {
    &&& 0 <= i < entries.len()
    &&& opt_equiv(entries[i].0, k)
    &&& forall|j: int| 0 <= j < i ==> !opt_equiv((#[trigger] entries[j]).0, k)
}

/// No entry of `entries` has a key that is the same as the key of an
/// entry after it.
pub open spec fn distinct_keys(entries: Seq<(Option<ValueView>, Option<ValueView>)>) -> bool {
    forall|i: int, j: int|
        0 <= i < j < entries.len() ==> !opt_equiv(
            (#[trigger] entries[i]).0,
            (#[trigger] entries[j]).0,
        )
}

/// The table `entries` after `k` is mapped to `v`: the first entry whose
/// key is the same as `k` keeps its key and gets the new value; where
/// there is none, a new entry is added at the end.
pub open spec fn table_insert(
    entries: Seq<(Option<ValueView>, Option<ValueView>)>,
    k: Option<ValueView>,
    v: Option<ValueView>,
) -> Seq<(Option<ValueView>, Option<ValueView>)> {
    if has_key(entries, k) {
        let i = choose|i: int| is_first_key(entries, k, i);
        entries.update(i, (entries[i].0, v))
    } else {
        entries.push((k, v))
    }
}

/// Every table in `v`, at any depth, has distinct keys.
pub open spec fn view_wf(v: ValueView) -> bool
    decreases v,
{
    match v {
        ValueView::HashTable(entries) => {
            &&& distinct_keys(entries)
            &&& forall|i: int|
                0 <= i < entries.len() ==> opt_view_wf((#[trigger] entries[i]).0) && opt_view_wf(
                    entries[i].1,
                )
        },
        _ => true,
    }
}

/// [`view_wf`] of a value that may be absent.
pub open spec fn opt_view_wf(v: Option<ValueView>) -> bool
    decreases v,
{
    match v {
        Some(x) => view_wf(x),
        None => true,
    }
}

/// What decoding one byte at `cur` gives.
pub open spec fn spec_parse_byte(buf: Seq<u8>, cur: int) -> Result<(ValueView, int), DecodeError> {
    if cur + 1 > buf.len() {
        Err(DecodeError::TruncatedInput)
    } else {
        Ok((ValueView::Byte(buf[cur]), cur + 1))
    }
}

/// What decoding a signed 32-bit integer at `cur` gives.
pub open spec fn spec_parse_int(buf: Seq<u8>, cur: int) -> Result<(ValueView, int), DecodeError> {
    if cur + 4 > buf.len() {
        Err(DecodeError::TruncatedInput)
    } else {
        Ok((ValueView::Integer(as_signed32(u32_at(buf, cur)) as i32), cur + 4))
    }
}

/// What decoding a text at `cur` gives: a 16-bit length, then that many
/// bytes of UTF-8, of which the NUL characters are dropped.
pub open spec fn spec_parse_string(buf: Seq<u8>, cur: int) -> Result<
    (ValueView, int),
    DecodeError,
> {
    if cur + 2 > buf.len() {
        Err(DecodeError::TruncatedInput)
    } else {
        let end = cur + 2 + u16_at(buf, cur);
        if end > buf.len() {
            Err(DecodeError::TruncatedInput)
        } else if !valid_utf8(buf.subrange(cur + 2, end)) {
            Err(DecodeError::InvalidText)
        } else {
            Ok((ValueView::String(spec_text(buf.subrange(cur + 2, end))), end))
        }
    }
}

/// What decoding a byte array at `cur` gives: a 32-bit length, then that
/// many bytes.
pub open spec fn spec_parse_byte_array(buf: Seq<u8>, cur: int) -> Result<
    (ValueView, int),
    DecodeError,
> {
    if cur + 4 > buf.len() {
        Err(DecodeError::TruncatedInput)
    } else {
        let end = cur + 4 + u32_at(buf, cur);
        if end > buf.len() {
            Err(DecodeError::TruncatedInput)
        } else {
            Ok((ValueView::ByteArray(buf.subrange(cur + 4, end)), end))
        }
    }
}

/// What decoding a value of tag `tag` at `cur` gives when tables may be
/// nested `depth` deep: the value, or none for the tags `Null` and
/// `Unknown`, and the place after it.
pub open spec fn spec_parse(tag: GpType, buf: Seq<u8>, cur: int, depth: nat) -> Result<
    (Option<ValueView>, int),
    DecodeError,
>
    decreases depth, 2nat, 0nat,
{
    match tag {
        GpType::Null | GpType::Unknown => Ok((None, cur)),
        GpType::Byte => match spec_parse_byte(buf, cur) {
            Ok((v, c)) => Ok((Some(v), c)),
            Err(e) => Err(e),
        },
        GpType::Integer => match spec_parse_int(buf, cur) {
            Ok((v, c)) => Ok((Some(v), c)),
            Err(e) => Err(e),
        },
        GpType::String => match spec_parse_string(buf, cur) {
            Ok((v, c)) => Ok((Some(v), c)),
            Err(e) => Err(e),
        },
        GpType::ByteArray => match spec_parse_byte_array(buf, cur) {
            Ok((v, c)) => Ok((Some(v), c)),
            Err(e) => Err(e),
        },
        GpType::Hashtable => match spec_parse_hashtable(buf, cur, depth) {
            Ok((v, c)) => Ok((Some(v), c)),
            Err(e) => Err(e),
        },
        _ => Err(DecodeError::UnsupportedValueType(tag)),
    }
}

/// What decoding a table at `cur` gives: a 16-bit entry count, then for
/// each entry a tagged key and a tagged value.
pub open spec fn spec_parse_hashtable(buf: Seq<u8>, cur: int, depth: nat) -> Result<
    (ValueView, int),
    DecodeError,
>
    decreases depth, 1nat, 0nat,
{
    if depth == 0 {
        Err(DecodeError::NestingTooDeep)
    } else if cur + 2 > buf.len() {
        Err(DecodeError::TruncatedInput)
    } else {
        table_of(
            spec_parse_entries(
                buf,
                cur + 2,
                u16_at(buf, cur) as nat,
                (depth - 1) as nat,
                Seq::empty(),
            ),
        )
    }
}

/// The table made of decoded entries, or the error that stopped them.
pub open spec fn table_of(
    r: Result<(Seq<(Option<ValueView>, Option<ValueView>)>, int), DecodeError>,
) -> Result<(ValueView, int), DecodeError> {
    match r {
        Ok((entries, c)) => Ok((ValueView::HashTable(entries), c)),
        Err(e) => Err(e),
    }
}

/// What decoding `count` more entries at `cur` gives, when `acc` holds the
/// entries decoded so far and values may hold tables nested `depth` deep.
pub open spec fn spec_parse_entries(
    buf: Seq<u8>,
    cur: int,
    count: nat,
    depth: nat,
    acc: Seq<(Option<ValueView>, Option<ValueView>)>,
) -> Result<(Seq<(Option<ValueView>, Option<ValueView>)>, int), DecodeError>
    decreases depth, 3nat, count,
{
    if count == 0 {
        Ok((acc, cur))
    } else if cur + 1 > buf.len() {
        Err(DecodeError::TruncatedInput)
    } else {
        match spec_parse(GpType::spec_from_code(buf[cur]), buf, cur + 1, depth) {
            Err(e) => Err(e),
            Ok((k, c1)) => if c1 + 1 > buf.len() {
                Err(DecodeError::TruncatedInput)
            } else {
                match spec_parse(GpType::spec_from_code(buf[c1]), buf, c1 + 1, depth) {
                    Err(e) => Err(e),
                    Ok((v, c2)) => spec_parse_entries(
                        buf,
                        c2,
                        (count - 1) as nat,
                        depth,
                        table_insert(acc, k, v),
                    ),
                }
            },
        }
    }
}


/// Whether two byte strings are equal.
fn same_bytes(a: &Vec<u8>, b: &Vec<u8>) -> (r: bool)
    ensures
        r == (a@ == b@),
{
    if a.len() != b.len() {
        return false;
    }
    let mut i: usize = 0;
    while i < a.len()
        invariant
            a@.len() == b@.len(),
            i <= a@.len(),
            forall|j: int| 0 <= j < i ==> a@[j] == b@[j],
        decreases a@.len() - i,
    {
        if a[i] != b[i] {
            return false;
        }
        i += 1;
    }
    assert(a@ =~= b@);
    true
}

/// Whether two lists of integers are equal.
fn same_ints(a: &Vec<i32>, b: &Vec<i32>) -> (r: bool)
    ensures
        r == (a@ == b@),
{
    if a.len() != b.len() {
        return false;
    }
    let mut i: usize = 0;
    while i < a.len()
        invariant
            a@.len() == b@.len(),
            i <= a@.len(),
            forall|j: int| 0 <= j < i ==> a@[j] == b@[j],
        decreases a@.len() - i,
    {
        if a[i] != b[i] {
            return false;
        }
        i += 1;
    }
    assert(a@ =~= b@);
    true
}

/// Whether two lists of texts are equal.
fn same_strings(a: &Vec<String>, b: &Vec<String>) -> (r: bool)
    ensures
        r == (a@.map_values(|s: String| s@) == b@.map_values(|s: String| s@)),
{
    let ghost va = a@.map_values(|s: String| s@);
    let ghost vb = b@.map_values(|s: String| s@);
    if a.len() != b.len() {
        assert(va.len() != vb.len());
        return false;
    }
    let mut i: usize = 0;
    while i < a.len()
        invariant
            a@.len() == b@.len(),
            i <= a@.len(),
            va == a@.map_values(|s: String| s@),
            vb == b@.map_values(|s: String| s@),
            forall|j: int| 0 <= j < i ==> va[j] == vb[j],
        decreases a@.len() - i,
    {
        if a[i] != b[i] {
            assert(va[i as int] != vb[i as int]);
            return false;
        }
        i += 1;
    }
    assert(va =~= vb);
    true
}

/// Every value is the same as itself.
pub proof fn lemma_equiv_reflexive(v: ValueView)
    ensures
        equiv(v, v),
    decreases v, 0nat,
{
    match v {
        ValueView::HashTable(entries) => {
            assert forall|i: int| 0 <= i < entries.len() implies entry_in(
                #[trigger] entries[i],
                entries,
            ) && entry_from(entries, entries[i], entries.len()) by {
                lemma_entry_reflexive(entries[i]);
                assert(entry_from(entries, entries[i], (i + 1) as nat));
                lemma_entry_from_more(entries, entries[i], (i + 1) as nat, entries.len());
            }
            assert(tables_equiv(entries, entries));
        },
        _ => {},
    }
}

/// Every entry is like itself.
proof fn lemma_entry_reflexive(e: (Option<ValueView>, Option<ValueView>))
    ensures
        entry_equiv(e, e),
    decreases e, 1nat,
{
    match e.0 {
        Some(x) => lemma_equiv_reflexive(x),
        None => {},
    }
    match e.1 {
        Some(x) => lemma_equiv_reflexive(x),
        None => {},
    }
}

/// Being the same does not depend on which of two values is asked first.
pub proof fn lemma_equiv_symmetric(a: ValueView, b: ValueView)
    requires
        equiv(a, b),
    ensures
        equiv(b, a),
    decreases a, 0nat,
{
    match a {
        ValueView::HashTable(ea) => {
            let eb = b->HashTable_0;
            assert forall|j: int| 0 <= j < eb.len() implies entry_in(#[trigger] eb[j], ea) by {
                let i = lemma_entry_from_place(ea, eb[j], ea.len());
                lemma_entry_symmetric(ea[i], eb[j]);
            }
            assert forall|i: int| 0 <= i < ea.len() implies entry_from(
                eb,
                #[trigger] ea[i],
                eb.len(),
            ) by {
                assert(entry_in(ea[i], eb));
                let j = choose|j: int| 0 <= j < eb.len() && entry_equiv(ea[i], #[trigger] eb[j]);
                lemma_entry_symmetric(ea[i], eb[j]);
                assert(entry_from(eb, ea[i], (j + 1) as nat));
                lemma_entry_from_more(eb, ea[i], (j + 1) as nat, eb.len());
            }
            assert(tables_equiv(eb, ea));
        },
        _ => {},
    }
}

/// Two entries are alike whichever is asked first.
proof fn lemma_entry_symmetric(
    a: (Option<ValueView>, Option<ValueView>),
    b: (Option<ValueView>, Option<ValueView>),
)
    requires
        entry_equiv(a, b),
    ensures
        entry_equiv(b, a),
    decreases a, 1nat,
{
    match a.0 {
        Some(x) => lemma_equiv_symmetric(x, b.0->0),
        None => {},
    }
    match a.1 {
        Some(x) => lemma_equiv_symmetric(x, b.1->0),
        None => {},
    }
}

/// Two values that are the same as a third are the same.
pub proof fn lemma_equiv_transitive(a: ValueView, b: ValueView, c: ValueView)
    requires
        equiv(a, b),
        equiv(b, c),
    ensures
        equiv(a, c),
    decreases a, 0nat,
{
    match a {
        ValueView::HashTable(ea) => {
            let eb = b->HashTable_0;
            let ec = c->HashTable_0;
            assert forall|i: int| 0 <= i < ea.len() implies entry_in(#[trigger] ea[i], ec) by {
                assert(entry_in(ea[i], eb));
                let j = choose|j: int| 0 <= j < eb.len() && entry_equiv(ea[i], #[trigger] eb[j]);
                assert(entry_in(eb[j], ec));
                let k = choose|k: int| 0 <= k < ec.len() && entry_equiv(eb[j], #[trigger] ec[k]);
                lemma_entry_transitive(ea[i], eb[j], ec[k]);
            }
            assert forall|k: int| 0 <= k < ec.len() implies entry_from(
                ea,
                #[trigger] ec[k],
                ea.len(),
            ) by {
                let j = lemma_entry_from_place(eb, ec[k], eb.len());
                let i = lemma_entry_from_place(ea, eb[j], ea.len());
                lemma_entry_transitive(ea[i], eb[j], ec[k]);
                assert(entry_from(ea, ec[k], (i + 1) as nat));
                lemma_entry_from_more(ea, ec[k], (i + 1) as nat, ea.len());
            }
            assert(tables_equiv(ea, ec));
        },
        _ => {},
    }
}

/// Two entries that are like a third are alike.
proof fn lemma_entry_transitive(
    a: (Option<ValueView>, Option<ValueView>),
    b: (Option<ValueView>, Option<ValueView>),
    c: (Option<ValueView>, Option<ValueView>),
)
    requires
        entry_equiv(a, b),
        entry_equiv(b, c),
    ensures
        entry_equiv(a, c),
    decreases a, 1nat,
{
    match a.0 {
        Some(x) => lemma_equiv_transitive(x, b.0->0, c.0->0),
        None => {},
    }
    match a.1 {
        Some(x) => lemma_equiv_transitive(x, b.1->0, c.1->0),
        None => {},
    }
}

/// A table is the same as the table of its entries in another order: the
/// entries of `other` are those of `entries`, each once, at other places.
pub proof fn lemma_table_order_is_immaterial(
    entries: Seq<(Option<ValueView>, Option<ValueView>)>,
    other: Seq<(Option<ValueView>, Option<ValueView>)>,
)
    requires
        forall|i: int| 0 <= i < entries.len() ==> other.contains(#[trigger] entries[i]),
        forall|j: int| 0 <= j < other.len() ==> entries.contains(#[trigger] other[j]),
    ensures
        equiv(ValueView::HashTable(entries), ValueView::HashTable(other)),
{
    assert forall|i: int| 0 <= i < entries.len() implies entry_in(#[trigger] entries[i], other) by {
        let j = choose|j: int| 0 <= j < other.len() && other[j] == entries[i];
        lemma_entry_reflexive(entries[i]);
        assert(entry_equiv(entries[i], other[j]));
    }
    assert forall|j: int| 0 <= j < other.len() implies entry_from(
        entries,
        #[trigger] other[j],
        entries.len(),
    ) by {
        let i = choose|i: int| 0 <= i < entries.len() && entries[i] == other[j];
        lemma_entry_reflexive(other[j]);
        assert(entry_from(entries, other[j], (i + 1) as nat));
        lemma_entry_from_more(entries, other[j], (i + 1) as nat, entries.len());
    }
    assert(tables_equiv(entries, other));
}

/// What an entry denotes.
pub open spec fn entry_view(e: (Option<Value>, Option<Value>)) -> (
    Option<ValueView>,
    Option<ValueView>,
) {
    (opt_view(e.0), opt_view(e.1))
}

/// An entry that has its like among the first entries has it among more.
proof fn lemma_entry_from_more(
    entries: Seq<(Option<ValueView>, Option<ValueView>)>,
    y: (Option<ValueView>, Option<ValueView>),
    n: nat,
    m: nat,
)
    requires
        n <= m <= entries.len(),
        entry_from(entries, y, n),
    ensures
        entry_from(entries, y, m),
    decreases m - n,
{
    if n < m {
        lemma_entry_from_more(entries, y, n, (m - 1) as nat);
    }
}

/// An entry that has its like among the first entries has it at some
/// place among them.
proof fn lemma_entry_from_place(
    entries: Seq<(Option<ValueView>, Option<ValueView>)>,
    y: (Option<ValueView>, Option<ValueView>),
    n: nat,
) -> (i: int)
    requires
        entry_from(entries, y, n),
    ensures
        0 <= i < n,
        i < entries.len(),
        entry_equiv(entries[i], y),
    decreases n,
{
    if entry_equiv(entries[n - 1], y) {
        n - 1
    } else {
        lemma_entry_from_place(entries, y, (n - 1) as nat)
    }
}

/// Whether two optional values are the same, tables compared as mappings.
pub fn opt_same(a: &Option<Value>, b: &Option<Value>) -> (r: bool)
    ensures
        r == opt_equiv(opt_view(*a), opt_view(*b)),
    decreases a, 1nat,
{
    match a {
        Some(x) => match b {
            Some(y) => x.same(y),
            None => false,
        },
        None => b.is_none(),
    }
}

/// Whether two entries are alike.
fn entry_same(a: &(Option<Value>, Option<Value>), b: &(Option<Value>, Option<Value>)) -> (r: bool)
    ensures
        r == entry_equiv(entry_view(*a), entry_view(*b)),
    decreases a, 2nat,
{
    opt_same(&a.0, &b.0) && opt_same(&a.1, &b.1)
}

/// Whether the entry `x` has its like in `list`.
fn has_like(x: &(Option<Value>, Option<Value>), list: &Vec<(Option<Value>, Option<Value>)>) -> (r:
    bool)
    ensures
        r == entry_in(entry_view(*x), entries_view(list@)),
    decreases x, 3nat,
{
    let ghost all = entries_view(list@);
    let mut j: usize = 0;
    while j < list.len()
        invariant
            j <= list@.len(),
            all == entries_view(list@),
            forall|c: int| 0 <= c < j ==> !entry_equiv(entry_view(*x), #[trigger] all[c]),
        decreases list@.len() - j,
    {
        if entry_same(x, &list[j]) {
            assert(entry_equiv(entry_view(*x), all[j as int]));
            return true;
        }
        j += 1;
    }
    false
}

/// Whether the entry `y` has its like in `list`.
fn like_among(list: &Vec<(Option<Value>, Option<Value>)>, y: &(Option<Value>, Option<Value>)) -> (r:
    bool)
    ensures
        r == entry_from(entries_view(list@), entry_view(*y), list@.len()),
    decreases list, 0nat,
{
    let ghost all = entries_view(list@);
    let mut i: usize = 0;
    while i < list.len()
        invariant
            i <= list@.len(),
            all == entries_view(list@),
            !entry_from(all, entry_view(*y), i as nat),
        decreases list@.len() - i,
    {
        if entry_same(&list[i], y) {
            proof {
                assert(entry_equiv(all[i as int], entry_view(*y)));
                assert(entry_from(all, entry_view(*y), (i + 1) as nat));
                lemma_entry_from_more(all, entry_view(*y), (i + 1) as nat, all.len());
            }
            return true;
        }
        i += 1;
    }
    false
}

/// Whether two tables are the same as mappings: each entry of either has
/// its like in the other.
fn same_entries(a: &Vec<(Option<Value>, Option<Value>)>, b: &Vec<(Option<Value>, Option<Value>)>) -> (r:
    bool)
    ensures
        r == tables_equiv(entries_view(a@), entries_view(b@)),
    decreases a, 5nat,
{
    let ghost va = entries_view(a@);
    let ghost vb = entries_view(b@);
    let mut i: usize = 0;
    while i < a.len()
        invariant
            i <= a@.len(),
            va == entries_view(a@),
            vb == entries_view(b@),
            forall|c: int| 0 <= c < i ==> entry_in(#[trigger] va[c], vb),
        decreases a@.len() - i,
    {
        if !has_like(&a[i], b) {
            assert(!entry_in(va[i as int], vb));
            return false;
        }
        i += 1;
    }
    let mut j: usize = 0;
    while j < b.len()
        invariant
            j <= b@.len(),
            va == entries_view(a@),
            vb == entries_view(b@),
            forall|c: int| 0 <= c < va.len() ==> entry_in(#[trigger] va[c], vb),
            forall|c: int| 0 <= c < j ==> entry_from(va, #[trigger] vb[c], va.len()),
        decreases b@.len() - j,
    {
        if !like_among(a, &b[j]) {
            assert(!entry_from(va, vb[j as int], va.len()));
            return false;
        }
        j += 1;
    }
    true
}

/// Maps `k` to `v` in a table with distinct keys.
fn insert_entry(acc: &mut Vec<(Option<Value>, Option<Value>)>, k: Option<Value>, v: Option<Value>)
    requires
        distinct_keys(entries_view(old(acc)@)),
    ensures
        entries_view(final(acc)@) == table_insert(
            entries_view(old(acc)@),
            opt_view(k),
            opt_view(v),
        ),
        distinct_keys(entries_view(final(acc)@)),
{
    let ghost before = entries_view(acc@);
    let ghost kv = opt_view(k);
    let ghost vv = opt_view(v);
    let mut i: usize = 0;
    while i < acc.len()
        invariant
            i <= acc@.len(),
            acc@ == old(acc)@,
            before == entries_view(acc@),
            distinct_keys(before),
            kv == opt_view(k),
            vv == opt_view(v),
            forall|j: int| 0 <= j < i ==> !opt_equiv((#[trigger] before[j]).0, kv),
        decreases acc@.len() - i,
    {
        if opt_same(&acc[i].0, &k) {
            let kept = acc.remove(i);
            acc.insert(i, (kept.0, v));
            proof {
                let at = i as int;
                let after = entries_view(acc@);
                assert(is_first_key(before, kv, at));
                assert forall|c: int| is_first_key(before, kv, c) implies c == at by {
                    if c < at {
                        assert(!opt_equiv(before[c].0, kv));
                    }
                    if at < c {
                        assert(opt_equiv(before[at].0, kv));
                    }
                }
                assert(has_key(before, kv));
                assert(after =~= before.update(at, (before[at].0, vv)));
                assert forall|a: int, b: int| 0 <= a < b < after.len() implies !opt_equiv(
                    (#[trigger] after[a]).0,
                    (#[trigger] after[b]).0,
                ) by {
                    assert(after[a].0 == before[a].0);
                    assert(after[b].0 == before[b].0);
                }
            }
            return ;
        }
        i += 1;
    }
    acc.push((k, v));
    proof {
        let after = entries_view(acc@);
        assert(!has_key(before, kv));
        assert(after =~= before.push((kv, vv)));
        assert forall|a: int, b: int| 0 <= a < b < after.len() implies !opt_equiv(
            (#[trigger] after[a]).0,
            (#[trigger] after[b]).0,
        ) by {
            assert(after[a] == before[a]);
            if b < before.len() {
                assert(after[b] == before[b]);
            }
        }
    }
}

/// A text or a byte array whose declared length reaches beyond the buffer
/// is truncated, and so is any value whose first byte is beyond it.
pub proof fn lemma_short_value_is_truncated(tag: GpType, buf: Seq<u8>, cur: int, depth: nat)
    requires
        0 <= cur,
        depth > 0,
        match tag {
            GpType::Byte => cur + 1 > buf.len(),
            GpType::Integer => cur + 4 > buf.len(),
            GpType::String => cur + 2 > buf.len() || cur + 2 + u16_at(buf, cur) > buf.len(),
            GpType::ByteArray => cur + 4 > buf.len() || cur + 4 + u32_at(buf, cur) > buf.len(),
            GpType::Hashtable => cur + 2 > buf.len(),
            _ => false,
        },
    ensures
        spec_parse(tag, buf, cur, depth) == Err::<(Option<ValueView>, int), DecodeError>(
            DecodeError::TruncatedInput,
        ),
{
}

/// A tag whose encoding is not implemented is rejected whatever the
/// buffer holds, and no other tag is rejected as unsupported at the top.
pub proof fn lemma_unimplemented_tag_is_rejected(tag: GpType, buf: Seq<u8>, cur: int, depth: nat)
    ensures
        !tag.spec_is_implemented() ==> spec_parse(tag, buf, cur, depth) == Err::<
            (Option<ValueView>, int),
            DecodeError,
        >(DecodeError::UnsupportedValueType(tag)),
        tag == GpType::Null || tag == GpType::Unknown ==> spec_parse(tag, buf, cur, depth) == Ok::<
            (Option<ValueView>, int),
            DecodeError,
        >((None, cur)),
{
}

/// Every key and value of `entries` is well formed.
pub open spec fn entries_wf(entries: Seq<(Option<ValueView>, Option<ValueView>)>) -> bool {
    forall|i: int|
        0 <= i < entries.len() ==> opt_view_wf((#[trigger] entries[i]).0) && opt_view_wf(
            entries[i].1,
        )
}

/// Mapping a well-formed key to a well-formed value keeps the entries
/// well formed.
proof fn lemma_insert_wf(
    entries: Seq<(Option<ValueView>, Option<ValueView>)>,
    k: Option<ValueView>,
    v: Option<ValueView>,
)
    requires
        entries_wf(entries),
        opt_view_wf(k),
        opt_view_wf(v),
    ensures
        entries_wf(table_insert(entries, k, v)),
{
    let after = table_insert(entries, k, v);
    if has_key(entries, k) {
        let at = choose|i: int| is_first_key(entries, k, i);
        let first = choose|i: int| 0 <= i < entries.len() && opt_equiv((#[trigger] entries[i]).0, k);
        lemma_first_key_exists(entries, k, first);
        assert forall|i: int| 0 <= i < after.len() implies opt_view_wf((#[trigger] after[i]).0)
            && opt_view_wf(after[i].1) by {
            if i != at {
                assert(after[i] == entries[i]);
            } else {
                assert(after[i] == (entries[i].0, v));
            }
        }
    } else {
        assert forall|i: int| 0 <= i < after.len() implies opt_view_wf((#[trigger] after[i]).0)
            && opt_view_wf(after[i].1) by {
            if i < entries.len() {
                assert(after[i] == entries[i]);
            }
        }
    }
}

/// Where some entry has a key that is the same as `k`, one is the first.
proof fn lemma_first_key_exists(
    entries: Seq<(Option<ValueView>, Option<ValueView>)>,
    k: Option<ValueView>,
    i: int,
)
    requires
        0 <= i < entries.len(),
        opt_equiv(entries[i].0, k),
    ensures
        exists|c: int| is_first_key(entries, k, c),
    decreases i,
{
    if exists|j: int| 0 <= j < i && opt_equiv((#[trigger] entries[j]).0, k) {
        let j = choose|j: int| 0 <= j < i && opt_equiv((#[trigger] entries[j]).0, k);
        lemma_first_key_exists(entries, k, j);
    } else {
        assert(is_first_key(entries, k, i));
    }
}

/// Whether `r` is what `s` says: the value that `s` describes and the place
/// after it, or the same error.
pub open spec fn decoded(
    r: Result<(Value, usize), DecodeError>,
    s: Result<(ValueView, int), DecodeError>,
) -> bool {
    match s {
        Ok((v, c)) => r is Ok && r->Ok_0.0@ == v && r->Ok_0.1 as int == c && view_wf(v),
        Err(e) => r == Err::<(Value, usize), DecodeError>(e),
    }
}

/// [`decoded`] for a value that may be absent.
pub open spec fn opt_decoded(
    r: Result<(Option<Value>, usize), DecodeError>,
    s: Result<(Option<ValueView>, int), DecodeError>,
) -> bool {
    match s {
        Ok((v, c)) => r is Ok && opt_view(r->Ok_0.0) == v && r->Ok_0.1 as int == c
            && opt_view_wf(v),
        Err(e) => r == Err::<(Option<Value>, usize), DecodeError>(e),
    }
}

/// Decodes one byte at `cur`.
fn byte_at(buf: &[u8], cur: usize) -> (r: Result<(Value, usize), DecodeError>)
    ensures
        decoded(r, spec_parse_byte(buf@, cur as int)),
{
    if cur >= buf.len() {
        return Err(DecodeError::TruncatedInput);
    }
    Ok((Value::Byte(buf[cur]), cur + 1))
}

/// Decodes a signed 32-bit integer at `cur`.
fn int_at(buf: &[u8], cur: usize) -> (r: Result<(Value, usize), DecodeError>)
    ensures
        decoded(r, spec_parse_int(buf@, cur as int)),
{
    let bits = match read_u32(buf, cur) {
        Ok(v) => v,
        Err(e) => {
            return Err(e);
        },
    };
    let v: i32 = if bits < 0x8000_0000 {
        bits as i32
    } else {
        (bits - 0x8000_0000) as i32 + i32::MIN
    };
    Ok((Value::Integer(v), cur + 4))
}

/// Decodes a text at `cur`.
fn string_at(buf: &[u8], cur: usize) -> (r: Result<(Value, usize), DecodeError>)
    ensures
        decoded(r, spec_parse_string(buf@, cur as int)),
{
    let n = match read_u16(buf, cur) {
        Ok(v) => v as usize,
        Err(e) => {
            return Err(e);
        },
    };
    let start: usize = cur + 2;
    if n > buf.len() - start {
        return Err(DecodeError::TruncatedInput);
    }
    let end: usize = start + n;
    let bytes = vstd::slice::slice_subrange(buf, start, end);
    match decode_text(bytes) {
        Ok(s) => Ok((Value::String(s), end)),
        Err(e) => Err(e),
    }
}

/// Decodes a byte array at `cur`.
fn byte_array_at(buf: &[u8], cur: usize) -> (r: Result<(Value, usize), DecodeError>)
    ensures
        decoded(r, spec_parse_byte_array(buf@, cur as int)),
{
    let n = match read_u32(buf, cur) {
        Ok(v) => v as usize,
        Err(e) => {
            return Err(e);
        },
    };
    let start: usize = cur + 4;
    if n > buf.len() - start {
        return Err(DecodeError::TruncatedInput);
    }
    let end: usize = start + n;
    let bytes = vstd::slice::slice_to_vec(vstd::slice::slice_subrange(buf, start, end));
    Ok((Value::ByteArray(bytes), end))
}

/// Decodes a value of tag `tag` at `cur`, following tables `depth` deep.
pub(crate) fn value_at(tag: GpType, buf: &[u8], cur: usize, depth: usize) -> (r: Result<
    (Option<Value>, usize),
    DecodeError,
>)
    ensures
        opt_decoded(r, spec_parse(tag, buf@, cur as int, depth as nat)),
    decreases depth, 2nat,
{
    match tag {
        GpType::Null | GpType::Unknown => Ok((None, cur)),
        GpType::Byte => match byte_at(buf, cur) {
            Ok((v, c)) => Ok((Some(v), c)),
            Err(e) => Err(e),
        },
        GpType::Integer => match int_at(buf, cur) {
            Ok((v, c)) => Ok((Some(v), c)),
            Err(e) => Err(e),
        },
        GpType::String => match string_at(buf, cur) {
            Ok((v, c)) => Ok((Some(v), c)),
            Err(e) => Err(e),
        },
        GpType::ByteArray => match byte_array_at(buf, cur) {
            Ok((v, c)) => Ok((Some(v), c)),
            Err(e) => Err(e),
        },
        GpType::Hashtable => match hashtable_at(buf, cur, depth) {
            Ok((v, c)) => Ok((Some(v), c)),
            Err(e) => Err(e),
        },
        _ => Err(DecodeError::UnsupportedValueType(tag)),
    }
}

/// Decodes a table at `cur`, itself at most `depth` deep.
fn hashtable_at(buf: &[u8], cur: usize, depth: usize) -> (r: Result<(Value, usize), DecodeError>)
    ensures
        decoded(r, spec_parse_hashtable(buf@, cur as int, depth as nat)),
    decreases depth, 1nat,
{
    let ghost goal = spec_parse_hashtable(buf@, cur as int, depth as nat);
    if depth == 0 {
        return Err(DecodeError::NestingTooDeep);
    }
    let count = match read_u16(buf, cur) {
        Ok(v) => v,
        Err(e) => {
            return Err(e);
        },
    };
    let inner: usize = depth - 1;
    let mut entries: Vec<(Option<Value>, Option<Value>)> = Vec::new();
    let mut at: usize = cur + 2;
    let mut left: u16 = count;
    assert(entries_view(entries@) =~= Seq::empty());
    while left > 0
        invariant
            inner == depth - 1,
            goal == spec_parse_hashtable(buf@, cur as int, depth as nat),
            goal == table_of(
                spec_parse_entries(
                    buf@,
                    at as int,
                    left as nat,
                    inner as nat,
                    entries_view(entries@),
                ),
            ),
            distinct_keys(entries_view(entries@)),
            entries_wf(entries_view(entries@)),
        decreases left,
    {
        if at >= buf.len() {
            return Err(DecodeError::TruncatedInput);
        }
        let (key, after_key) = match value_at(GpType::from_u8(buf[at]), buf, at + 1, inner) {
            Ok(p) => p,
            Err(e) => {
                return Err(e);
            },
        };
        if after_key >= buf.len() {
            return Err(DecodeError::TruncatedInput);
        }
        let (value, after_value) = match value_at(
            GpType::from_u8(buf[after_key]),
            buf,
            after_key + 1,
            inner,
        ) {
            Ok(p) => p,
            Err(e) => {
                return Err(e);
            },
        };
        proof {
            lemma_insert_wf(entries_view(entries@), opt_view(key), opt_view(value));
        }
        insert_entry(&mut entries, key, value);
        at = after_value;
        left -= 1;
    }
    Ok((Value::HashTable(entries), at))
}


/// A copy of a list of texts.
fn copy_strings(a: &Vec<String>) -> (r: Vec<String>)
    ensures
        r@ == a@,
{
    let mut out: Vec<String> = Vec::new();
    let mut i: usize = 0;
    while i < a.len()
        invariant
            i <= a@.len(),
            out@ == a@.subrange(0, i as int),
        decreases a@.len() - i,
    {
        out.push(a[i].clone());
        i += 1;
    }
    out
}

/// A copy of an optional value.
fn copy_opt(v: &Option<Value>) -> (r: Option<Value>)
    ensures
        opt_view(r) == opt_view(*v),
    decreases v,
{
    match v {
        Some(x) => Some(x.clone()),
        None => None,
    }
}

/// A copy of a list of entries.
fn copy_entries(a: &Vec<(Option<Value>, Option<Value>)>) -> (r: Vec<(Option<Value>, Option<Value>)>)
    ensures
        entries_view(r@) == entries_view(a@),
    decreases a,
{
    let mut out: Vec<(Option<Value>, Option<Value>)> = Vec::new();
    let mut i: usize = 0;
    while i < a.len()
        invariant
            i <= a@.len(),
            entries_view(out@) == entries_view(a@).subrange(0, i as int),
        decreases a@.len() - i,
    {
        let k = copy_opt(&a[i].0);
        let v = copy_opt(&a[i].1);
        let ghost before = entries_view(out@);
        let ghost entry = (opt_view(k), opt_view(v));
        out.push((k, v));
        assert(entries_view(out@) =~= before.push(entry));
        i += 1;
    }
    out
}

impl Clone for Value {
    /// A copy that denotes the same value.
    fn clone(&self) -> (r: Value)
        ensures
            r@ == self@,
        decreases self,
    {
        match self {
            Value::Dictionary => Value::Dictionary,
            Value::StringArray(a) => Value::StringArray(copy_strings(a)),
            Value::Byte(b) => Value::Byte(*b),
            Value::Custom => Value::Custom,
            Value::Double(d) => Value::Double(*d),
            Value::EventData => Value::EventData,
            Value::Float(f) => Value::Float(*f),
            Value::HashTable(entries) => Value::HashTable(copy_entries(entries)),
            Value::Integer(i) => Value::Integer(*i),
            Value::Short(i) => Value::Short(*i),
            Value::Long(i) => Value::Long(*i),
            Value::IntArray(a) => Value::IntArray(a.clone()),
            Value::Boolean(b) => Value::Boolean(*b),
            Value::OperationResponse => Value::OperationResponse,
            Value::OperationRequest => Value::OperationRequest,
            Value::String(s) => Value::String(s.clone()),
            Value::ByteArray(b) => Value::ByteArray(b.clone()),
            Value::Array => Value::Array,
            Value::ObjectArray => Value::ObjectArray,
        }
    }
}

impl Value {
    /// Whether two values are the same, tables compared as mappings: the
    /// order in which the entries of a table stand does not count, in the
    /// value itself or in the keys and values of its tables. (`==` and the
    /// order on values go by the entries as they stand.)
    pub fn same(&self, other: &Value) -> (r: bool)
        ensures
            r == equiv(self@, other@),
        decreases self, 0nat,
    {
        match self {
            Value::Dictionary => matches!(other, Value::Dictionary),
            Value::StringArray(a) => match other {
                Value::StringArray(b) => same_strings(a, b),
                _ => false,
            },
            Value::Byte(a) => match other {
                Value::Byte(b) => *a == *b,
                _ => false,
            },
            Value::Custom => matches!(other, Value::Custom),
            Value::Double(a) => match other {
                Value::Double(b) => a.val == b.val,
                _ => false,
            },
            Value::EventData => matches!(other, Value::EventData),
            Value::Float(a) => match other {
                Value::Float(b) => a.val == b.val,
                _ => false,
            },
            Value::HashTable(a) => match other {
                Value::HashTable(b) => same_entries(a, b),
                _ => false,
            },
            Value::Integer(a) => match other {
                Value::Integer(b) => *a == *b,
                _ => false,
            },
            Value::Short(a) => match other {
                Value::Short(b) => *a == *b,
                _ => false,
            },
            Value::Long(a) => match other {
                Value::Long(b) => *a == *b,
                _ => false,
            },
            Value::IntArray(a) => match other {
                Value::IntArray(b) => same_ints(a, b),
                _ => false,
            },
            Value::Boolean(a) => match other {
                Value::Boolean(b) => *a == *b,
                _ => false,
            },
            Value::OperationResponse => matches!(other, Value::OperationResponse),
            Value::OperationRequest => matches!(other, Value::OperationRequest),
            Value::String(a) => match other {
                Value::String(b) => *a == *b,
                _ => false,
            },
            Value::ByteArray(a) => match other {
                Value::ByteArray(b) => same_bytes(a, b),
                _ => false,
            },
            Value::Array => matches!(other, Value::Array),
            Value::ObjectArray => matches!(other, Value::ObjectArray),
        }
    }
}


impl Value {
    /// Decodes a value of tag `t` at `*cur` and moves `*cur` past it.
    ///
    /// The tags `Null` and `Unknown` stand for no value and take no bytes.
    /// A tag whose encoding is not implemented gives `UnsupportedValueType`;
    /// a buffer that ends early gives `TruncatedInput`; tables nested more
    /// than [`MAX_DEPTH`] deep give `NestingTooDeep`. On an error `*cur` is
    /// left as it was.
    pub fn parse(t: GpType, buf: &[u8], cur: &mut usize) -> (r: Result<Option<Value>, DecodeError>)
        ensures
            match spec_parse(t, buf@, *old(cur) as int, MAX_DEPTH as nat) {
                Ok((v, c)) => r is Ok && opt_view(r->Ok_0) == v && opt_view_wf(v) && *final(cur)
                    as int == c,
                Err(e) => r == Err::<Option<Value>, DecodeError>(e) && *final(cur) == *old(cur),
            },
    {
        match value_at(t, buf, *cur, MAX_DEPTH) {
            Ok((v, c)) => {
                *cur = c;
                Ok(v)
            },
            Err(e) => Err(e),
        }
    }

    /// Decodes one byte at `*cur` and moves `*cur` past it.
    pub fn parse_byte(buf: &[u8], cur: &mut usize) -> (r: Result<Value, DecodeError>)
        ensures
            match spec_parse_byte(buf@, *old(cur) as int) {
                Ok((v, c)) => r is Ok && r->Ok_0@ == v && *final(cur) as int == c,
                Err(e) => r == Err::<Value, DecodeError>(e) && *final(cur) == *old(cur),
            },
    {
        match byte_at(buf, *cur) {
            Ok((v, c)) => {
                *cur = c;
                Ok(v)
            },
            Err(e) => Err(e),
        }
    }

    /// Decodes a byte array at `*cur`, a 32-bit length and that many bytes,
    /// and moves `*cur` past it.
    pub fn parse_byte_array(buf: &[u8], cur: &mut usize) -> (r: Result<Value, DecodeError>)
        ensures
            match spec_parse_byte_array(buf@, *old(cur) as int) {
                Ok((v, c)) => r is Ok && r->Ok_0@ == v && *final(cur) as int == c,
                Err(e) => r == Err::<Value, DecodeError>(e) && *final(cur) == *old(cur),
            },
    {
        match byte_array_at(buf, *cur) {
            Ok((v, c)) => {
                *cur = c;
                Ok(v)
            },
            Err(e) => Err(e),
        }
    }

    /// Decodes a table at `*cur`, a 16-bit entry count and that many pairs
    /// of a tagged key and a tagged value, and moves `*cur` past it. A key
    /// that occurs again replaces the value of its entry.
    pub fn parse_hashtable(buf: &[u8], cur: &mut usize) -> (r: Result<Value, DecodeError>)
        ensures
            match spec_parse_hashtable(buf@, *old(cur) as int, MAX_DEPTH as nat) {
                Ok((v, c)) => r is Ok && r->Ok_0@ == v && view_wf(v) && *final(cur) as int == c,
                Err(e) => r == Err::<Value, DecodeError>(e) && *final(cur) == *old(cur),
            },
    {
        match hashtable_at(buf, *cur, MAX_DEPTH) {
            Ok((v, c)) => {
                *cur = c;
                Ok(v)
            },
            Err(e) => Err(e),
        }
    }

    /// Decodes a signed 32-bit integer at `*cur` and moves `*cur` past it.
    pub fn parse_int(buf: &[u8], cur: &mut usize) -> (r: Result<Value, DecodeError>)
        ensures
            match spec_parse_int(buf@, *old(cur) as int) {
                Ok((v, c)) => r is Ok && r->Ok_0@ == v && *final(cur) as int == c,
                Err(e) => r == Err::<Value, DecodeError>(e) && *final(cur) == *old(cur),
            },
    {
        match int_at(buf, *cur) {
            Ok((v, c)) => {
                *cur = c;
                Ok(v)
            },
            Err(e) => Err(e),
        }
    }

    /// Decodes a text at `*cur`, a 16-bit length and that many bytes of
    /// UTF-8, and moves `*cur` past it. NUL characters are dropped; a length
    /// of zero gives the empty text.
    pub fn parse_string(buf: &[u8], cur: &mut usize) -> (r: Result<Value, DecodeError>)
        ensures
            match spec_parse_string(buf@, *old(cur) as int) {
                Ok((v, c)) => r is Ok && r->Ok_0@ == v && *final(cur) as int == c,
                Err(e) => r == Err::<Value, DecodeError>(e) && *final(cur) == *old(cur),
            },
    {
        match string_at(buf, *cur) {
            Ok((v, c)) => {
                *cur = c;
                Ok(v)
            },
            Err(e) => Err(e),
        }
    }
}

} // verus!
