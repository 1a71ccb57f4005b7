//! Reassembly of messages that arrive as fragments.
//!
//! The fragments of one message share a start sequence number and say
//! where in the message their bytes belong, so they may arrive in any
//! order. A reassembler belongs to one session: start sequence numbers are
//! unique only within one peer's commands.

use std::collections::BTreeMap;
use vstd::prelude::*;
use crate::error::DecodeError;
use crate::header::CommandHeader;
use crate::typ::CommandType;

verus! {

/// The fragments of one message received so far.
pub struct FragmentBuffer {
    /// How many fragments make the message.
    total_fragments: u32,
    /// The message, as long as its total length, with the bytes of the
    /// fragments received so far in place and zeroes elsewhere.
    bytes: Vec<u8>,
    /// The offsets of the fragments received so far, each once.
    offsets: Vec<u32>,
}

/// What a [`FragmentBuffer`] denotes.
pub struct FragmentBufferView {
    pub total_fragments: nat,
    pub bytes: Seq<u8>,
    pub offsets: Seq<u32>,
}

impl View for FragmentBuffer {
    type V = FragmentBufferView;

    closed spec fn view(&self) -> FragmentBufferView {
        FragmentBufferView {
            total_fragments: self.total_fragments as nat,
            bytes: self.bytes@,
            offsets: self.offsets@,
        }
    }
}

impl FragmentBufferView {
    /// No offset is recorded twice, and the message fits a 32-bit length.
    pub open spec fn wf(self) -> bool {
        &&& self.offsets.no_duplicates()
        &&& self.bytes.len() <= u32::MAX
        &&& self.total_fragments <= u32::MAX
    }
}

/// The buffer of a message of which no fragment has arrived.
pub open spec fn fresh_buffer(total_len: u32, fragment_count: u32) -> FragmentBufferView {
    FragmentBufferView {
        total_fragments: fragment_count as nat,
        bytes: Seq::new(total_len as nat, |i: int| 0u8),
        offsets: Seq::empty(),
    }
}

/// `bytes` with `data` written over it from `at` on.
pub open spec fn splice(bytes: Seq<u8>, at: int, data: Seq<u8>) -> Seq<u8>
    recommends
        0 <= at,
        at + data.len() <= bytes.len(),
{
    bytes.subrange(0, at) + data + bytes.subrange(at + data.len(), bytes.len() as int)
}

/// What one fragment does to the buffers of a session, and what it
/// yields: the fragment belongs to the message `key`, declared to be
/// `total_len` bytes in `fragment_count` fragments, and brings `data` for
/// the place `offset`.
///
/// A message without a buffer gets a fresh one. A fragment that reaches
/// beyond the message is an error and discards the buffer. A fragment at
/// an offset that is already there is ignored. Otherwise its bytes are
/// put in place; when as many distinct fragments are there as the message
/// has, the buffer leaves the session and the message is yielded.
pub open spec fn spec_ingest(
    state: Map<u32, FragmentBufferView>,
    key: u32,
    fragment_count: u32,
    total_len: u32,
    offset: u32,
    data: Seq<u8>,
) -> (Map<u32, FragmentBufferView>, Result<Option<Seq<u8>>, DecodeError>) {
    let buffer = if state.contains_key(key) {
        state[key]
    } else {
        fresh_buffer(total_len, fragment_count)
    };
    if offset + data.len() > buffer.bytes.len() {
        (state.remove(key), Err(DecodeError::FragmentOutOfBounds))
    } else if buffer.offsets.contains(offset) {
        (state, Ok(None))
    } else {
        let filled = FragmentBufferView {
            total_fragments: buffer.total_fragments,
            bytes: splice(buffer.bytes, offset as int, data),
            offsets: buffer.offsets.push(offset),
        };
        if filled.offsets.len() == filled.total_fragments {
            (state.remove(key), Ok(Some(filled.bytes)))
        } else {
            (state.insert(key, filled), Ok(None))
        }
    }
}

/// A fragment that arrives again before its message is complete changes
/// nothing and yields nothing, whatever bytes of the same length it brings
/// and whatever it declares of the message: it is not counted twice.
pub proof fn lemma_duplicate_is_ignored(
    state: Map<u32, FragmentBufferView>,
    key: u32,
    fragment_count: u32,
    total_len: u32,
    offset: u32,
    data: Seq<u8>,
    again_count: u32,
    again_total_len: u32,
    again: Seq<u8>,
)
    requires
        spec_ingest(state, key, fragment_count, total_len, offset, data).1 == Ok::<
            Option<Seq<u8>>,
            DecodeError,
        >(None),
        again.len() == data.len(),
    ensures
        ({
            let waiting = spec_ingest(state, key, fragment_count, total_len, offset, data).0;
            &&& waiting.contains_key(key)
            &&& waiting[key].offsets.contains(offset)
            &&& spec_ingest(waiting, key, again_count, again_total_len, offset, again) == (
                waiting,
                Ok::<Option<Seq<u8>>, DecodeError>(None),
            )
        }),
{
    let buffer = if state.contains_key(key) {
        state[key]
    } else {
        fresh_buffer(total_len, fragment_count)
    };
    if !buffer.offsets.contains(offset) {
        let offsets = buffer.offsets.push(offset);
        assert(offsets[offsets.len() - 1] == offset);
    }
}

/// One fragment of a message: where its bytes belong, and the bytes.
pub struct Piece {
    pub offset: u32,
    pub data: Seq<u8>,
}

/// The pieces lie within a message of `total_len` bytes, start at
/// different places, do not overlap, and cover the message.
pub open spec fn tiles(pieces: Seq<Piece>, total_len: u32) -> bool {
    &&& forall|i: int|
        0 <= i < pieces.len() ==> (#[trigger] pieces[i]).offset + pieces[i].data.len()
            <= total_len
    &&& forall|i: int, j: int|
        0 <= i < pieces.len() && 0 <= j < pieces.len() && i != j ==> {
            &&& (#[trigger] pieces[i]).offset != (#[trigger] pieces[j]).offset
            &&& (pieces[i].offset + pieces[i].data.len() <= pieces[j].offset || pieces[j].offset
                + pieces[j].data.len() <= pieces[i].offset)
        }
    &&& forall|p: int| 0 <= p < total_len ==> #[trigger] covers(pieces, p)
}

/// Some piece holds the byte at place `p` of the message.
pub open spec fn covers(pieces: Seq<Piece>, p: int) -> bool {
    exists|i: int|
        0 <= i < pieces.len() && (#[trigger] pieces[i]).offset <= p < pieces[i].offset
            + pieces[i].data.len()
}

/// The byte at place `p` of `message` is the byte that some piece brings
/// for that place.
pub open spec fn comes_from(pieces: Seq<Piece>, message: Seq<u8>, p: int) -> bool {
    exists|i: int|
        0 <= i < pieces.len() && (#[trigger] pieces[i]).offset <= p < pieces[i].offset
            + pieces[i].data.len() && message[p] == pieces[i].data[p - pieces[i].offset]
}

/// The message buffer after the pieces have been put in place, in their
/// order, over `total_len` zero bytes.
pub open spec fn filled(pieces: Seq<Piece>, total_len: u32) -> Seq<u8>
    decreases pieces.len(),
{
    if pieces.len() == 0 {
        fresh_buffer(total_len, 0).bytes
    } else {
        splice(filled(pieces.drop_last(), total_len), pieces.last().offset as int, pieces.last().data)
    }
}

/// The buffers of a session after the fragments `pieces` of the message
/// `key` have been taken in, in their order.
pub open spec fn ingest_all(
    state: Map<u32, FragmentBufferView>,
    key: u32,
    fragment_count: u32,
    total_len: u32,
    pieces: Seq<Piece>,
) -> Map<u32, FragmentBufferView>
    decreases pieces.len(),
{
    if pieces.len() == 0 {
        state
    } else {
        spec_ingest(
            ingest_all(state, key, fragment_count, total_len, pieces.drop_last()),
            key,
            fragment_count,
            total_len,
            pieces.last().offset,
            pieces.last().data,
        ).0
    }
}

/// Putting pieces in place keeps the length of the buffer, and every
/// piece is found where it belongs as long as the pieces do not overlap.
proof fn lemma_filled(pieces: Seq<Piece>, total_len: u32, k: int)
    requires
        0 <= k <= pieces.len(),
        forall|i: int|
            0 <= i < pieces.len() ==> (#[trigger] pieces[i]).offset + pieces[i].data.len()
                <= total_len,
        forall|i: int, j: int|
            0 <= i < pieces.len() && 0 <= j < pieces.len() && i != j ==> ((
            #[trigger] pieces[i]).offset + pieces[i].data.len() <= (#[trigger] pieces[j]).offset
                || pieces[j].offset + pieces[j].data.len() <= pieces[i].offset),
    ensures
        filled(pieces.subrange(0, k), total_len).len() == total_len,
        forall|i: int|
            0 <= i < k ==> filled(pieces.subrange(0, k), total_len).subrange(
                (#[trigger] pieces[i]).offset as int,
                pieces[i].offset + pieces[i].data.len(),
            ) == pieces[i].data,
    decreases k,
{
    let now = pieces.subrange(0, k);
    if k > 0 {
        lemma_filled(pieces, total_len, k - 1);
        assert(now.drop_last() =~= pieces.subrange(0, k - 1));
    }
}

/// After some but not all fragments of a message have been taken in, the
/// session holds one buffer for it, with those fragments in place.
proof fn lemma_ingest_all(
    state: Map<u32, FragmentBufferView>,
    key: u32,
    total_len: u32,
    pieces: Seq<Piece>,
    k: int,
)
    requires
        !state.contains_key(key),
        0 < k < pieces.len() <= u32::MAX,
        tiles(pieces, total_len),
    ensures
        ingest_all(state, key, pieces.len() as u32, total_len, pieces.subrange(0, k))
            == state.insert(
            key,
            FragmentBufferView {
                total_fragments: pieces.len(),
                bytes: filled(pieces.subrange(0, k), total_len),
                offsets: pieces.subrange(0, k).map_values(|p: Piece| p.offset),
            },
        ),
    decreases k,
{
    let count = pieces.len() as u32;
    let now = pieces.subrange(0, k);
    let earlier = pieces.subrange(0, k - 1);
    let last = pieces[k - 1];
    assert(now.drop_last() =~= earlier);
    lemma_filled(pieces, total_len, k - 1);
    let before = ingest_all(state, key, count, total_len, earlier);
    let offsets = earlier.map_values(|p: Piece| p.offset);
    if k > 1 {
        lemma_ingest_all(state, key, total_len, pieces, k - 1);
    }
    let buffer = if before.contains_key(key) {
        before[key]
    } else {
        fresh_buffer(total_len, count)
    };
    assert(buffer.offsets == offsets);
    assert(offsets.push(last.offset) =~= now.map_values(|p: Piece| p.offset));
    let after = spec_ingest(before, key, count, total_len, last.offset, last.data).0;
    assert(after =~= state.insert(
        key,
        FragmentBufferView {
            total_fragments: pieces.len(),
            bytes: filled(now, total_len),
            offsets: now.map_values(|p: Piece| p.offset),
        },
    ));
}

/// A message whose fragments tile it is yielded exactly once, by the
/// fragment that arrives last, whatever the order of arrival: the
/// fragments before it yield nothing, and the last one yields the message
/// with the bytes of every fragment at its place, and leaves the session
/// as it was before the first.
pub proof fn lemma_fragments_complete(
    state: Map<u32, FragmentBufferView>,
    key: u32,
    total_len: u32,
    pieces: Seq<Piece>,
    k: int,
)
    requires
        !state.contains_key(key),
        0 <= k < pieces.len() <= u32::MAX,
        tiles(pieces, total_len),
    ensures
        ({
            let count = pieces.len() as u32;
            let before = ingest_all(state, key, count, total_len, pieces.subrange(0, k));
            let (after, out) = spec_ingest(
                before,
                key,
                count,
                total_len,
                pieces[k].offset,
                pieces[k].data,
            );
            &&& k < pieces.len() - 1 ==> out == Ok::<Option<Seq<u8>>, DecodeError>(None)
                && after.contains_key(key)
            &&& k == pieces.len() - 1 ==> {
                &&& out is Ok
                &&& out->Ok_0 is Some
                &&& out->Ok_0->0 == filled(pieces, total_len)
                &&& out->Ok_0->0.len() == total_len
                &&& forall|i: int|
                    0 <= i < pieces.len() ==> out->Ok_0->0.subrange(
                        (#[trigger] pieces[i]).offset as int,
                        pieces[i].offset + pieces[i].data.len(),
                    ) == pieces[i].data
                &&& forall|p: int|
                    0 <= p < total_len ==> #[trigger] comes_from(pieces, out->Ok_0->0, p)
                &&& after == state
            }
        }),
{
    lemma_filled(pieces, total_len, k);
    lemma_filled(pieces, total_len, k + 1);
    if k > 0 {
        lemma_ingest_all(state, key, total_len, pieces, k);
    }
    if k == pieces.len() - 1 {
        let message = filled(pieces, total_len);
        assert forall|p: int| 0 <= p < total_len implies #[trigger] comes_from(
            pieces,
            message,
            p,
        ) by {
            assert(covers(pieces, p));
        }
    }
}

/// Whether what `r` holds is what `out` says.
pub open spec fn yielded(
    r: Result<Option<Vec<u8>>, DecodeError>,
    out: Result<Option<Seq<u8>>, DecodeError>,
) -> bool {
    match out {
        Ok(Some(b)) => r is Ok && r->Ok_0 is Some && r->Ok_0->0@ == b,
        Ok(None) => r is Ok && r->Ok_0 is None,
        Err(e) => r == Err::<Option<Vec<u8>>, DecodeError>(e),
    }
}

/// A buffer of `n` zero bytes.
fn zeroes(n: usize) -> (r: Vec<u8>)
    ensures
        r@ == Seq::new(n as nat, |i: int| 0u8),
{
    let mut out: Vec<u8> = Vec::new();
    let mut i: usize = 0;
    while i < n
        invariant
            i <= n,
            out@ == Seq::new(i as nat, |j: int| 0u8),
        decreases n - i,
    {
        out.push(0);
        i += 1;
    }
    out
}

/// Whether `x` is among `list`.
fn contains_offset(list: &Vec<u32>, x: u32) -> (r: bool)
    ensures
        r == list@.contains(x),
{
    let mut i: usize = 0;
    while i < list.len()
        invariant
            i <= list@.len(),
            forall|j: int| 0 <= j < i ==> list@[j] != x,
        decreases list@.len() - i,
    {
        if list[i] == x {
            return true;
        }
        i += 1;
    }
    false
}

/// Writes `data` over `bytes` from `at` on.
fn write_at(bytes: &mut Vec<u8>, at: usize, data: &[u8])
    requires
        at + data@.len() <= old(bytes)@.len(),
    ensures
        final(bytes)@ == splice(old(bytes)@, at as int, data@),
{
    let n = bytes.len();
    let mut i: usize = 0;
    while i < data.len()
        invariant
            i <= data@.len(),
            n == old(bytes)@.len(),
            bytes@.len() == n,
            at + data@.len() <= n,
            bytes@ == splice(old(bytes)@, at as int, data@.subrange(0, i as int)),
        decreases data@.len() - i,
    {
        bytes.set(at + i, data[i]);
        i += 1;
    }
}

/// The buffers of the incomplete messages of one session, by start
/// sequence number.
pub struct FragmentReassembler {
    buffers: BTreeMap<u32, FragmentBuffer>,
}

/// What a map of buffers denotes.
spec fn buffers_view(buffers: Map<u32, FragmentBuffer>) -> Map<u32, FragmentBufferView> {
    Map::new(|k: u32| buffers.contains_key(k), |k: u32| buffers[k]@)
}

impl View for FragmentReassembler {
    type V = Map<u32, FragmentBufferView>;

    closed spec fn view(&self) -> Map<u32, FragmentBufferView> {
        buffers_view(self.buffers@)
    }
}

impl FragmentReassembler {
    /// Every buffer is well formed.
    #[verifier::type_invariant]
    spec fn wf(self) -> bool {
        forall|k: u32| self@.contains_key(k) ==> (#[trigger] self@[k]).wf()
    }

    /// A reassembler with no message under way.
    pub fn new() -> (r: FragmentReassembler)
        ensures
            r@ == Map::<u32, FragmentBufferView>::empty(),
    {
        let r = FragmentReassembler { buffers: BTreeMap::new() };
        r
    }

    /// Takes in one fragment: `header` is the header of its command and
    /// `fragment` its payload. Gives the whole message when this fragment
    /// completes it, else nothing.
    ///
    /// What happens to the session's buffers, and when an error is
    /// returned, is as [`spec_ingest`] says.
    pub fn ingest(&mut self, header: &CommandHeader, fragment: &[u8]) -> (r: Result<
        Option<Vec<u8>>,
        DecodeError,
    >)
        requires
            header.cmd_type == CommandType::Fragmented,
            header.wf(),
        ensures
            final(self)@ == spec_ingest(
                old(self)@,
                header.start_seq_num->0,
                header.fragment_count->0,
                header.total_len->0,
                header.fragment_offset->0,
                fragment@,
            ).0,
            yielded(
                r,
                spec_ingest(
                    old(self)@,
                    header.start_seq_num->0,
                    header.fragment_count->0,
                    header.total_len->0,
                    header.fragment_offset->0,
                    fragment@,
                ).1,
            ),
            r matches Ok(Some(v)) ==> v@.len() <= u32::MAX,
    {
        broadcast use vstd::std_specs::btree::group_btree_axioms;

        proof {
            use_type_invariant(&*self);
        }
        let key = header.start_seq_num.unwrap();
        let offset = header.fragment_offset.unwrap();
        let ghost before = self@;
        let mut buffers: BTreeMap<u32, FragmentBuffer> = BTreeMap::new();
        std::mem::swap(&mut self.buffers, &mut buffers);
        let mut buffer = match buffers.remove(&key) {
            Some(b) => b,
            None => FragmentBuffer {
                total_fragments: header.fragment_count.unwrap(),
                bytes: zeroes(header.total_len.unwrap() as usize),
                offsets: Vec::new(),
            },
        };
        assert(buffers_view(buffers@) =~= before.remove(key));
        assert(buffer@ == if before.contains_key(key) {
            before[key]
        } else {
            fresh_buffer(header.total_len->0, header.fragment_count->0)
        });
        if fragment.len() > buffer.bytes.len() || offset as usize > buffer.bytes.len()
            - fragment.len() {
            self.buffers = buffers;
            return Err(DecodeError::FragmentOutOfBounds);
        }
        if contains_offset(&buffer.offsets, offset) {
            buffers.insert(key, buffer);
            assert(buffers_view(buffers@) =~= before);
            self.buffers = buffers;
            return Ok(None);
        }
        write_at(&mut buffer.bytes, offset as usize, fragment);
        buffer.offsets.push(offset);
        assert(buffer@.wf()) by {
            let offsets = buffer@.offsets;
        }
        if buffer.offsets.len() == buffer.total_fragments as usize {
            self.buffers = buffers;
            return Ok(Some(buffer.bytes));
        }
        let ghost filled = buffer@;
        buffers.insert(key, buffer);
        assert(buffers_view(buffers@) =~= before.insert(key, filled));
        self.buffers = buffers;
        Ok(None)
    }

    /// Whether fragments of the message `start_seq_num` are waiting for
    /// the rest.
    pub fn is_pending(&self, start_seq_num: u32) -> (r: bool)
        ensures
            r == self@.contains_key(start_seq_num),
    {
        broadcast use vstd::std_specs::btree::group_btree_axioms;

        self.buffers.contains_key(&start_seq_num)
    }

    /// Discards what has arrived of the message `start_seq_num`; says
    /// whether there was anything.
    pub fn evict(&mut self, start_seq_num: u32) -> (r: bool)
        ensures
            r == old(self)@.contains_key(start_seq_num),
            final(self)@ == old(self)@.remove(start_seq_num),
    {
        broadcast use vstd::std_specs::btree::group_btree_axioms;

        proof {
            use_type_invariant(&*self);
        }
        let ghost before = self@;
        let mut buffers: BTreeMap<u32, FragmentBuffer> = BTreeMap::new();
        std::mem::swap(&mut self.buffers, &mut buffers);
        let gone = buffers.remove(&start_seq_num);
        assert(buffers_view(buffers@) =~= before.remove(start_seq_num));
        self.buffers = buffers;
        gone.is_some()
    }
}

} // verus!
