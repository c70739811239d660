use vstd::prelude::*;

use crate::event::{DecodeError, InternalEvent, RawEvent};
use crate::inbox::Inbox;

verus! {

/// What the external decoder reports on the bytes gathered so far.
#[derive(Clone, Copy, Debug, PartialEq, Eq, Structural)]
pub enum Decoded {
    /// The bytes are a prefix of an event: keep gathering.
    Incomplete,
    /// The bytes form this event.
    Complete(InternalEvent),
    /// The bytes cannot start any event.
    Malformed,
}

/// The entries queued and the bytes kept after the decoder answered `out` on
/// the gathered bytes `input`.
pub open spec fn step(input: Seq<u8>, out: Decoded) -> (Seq<RawEvent>, Seq<u8>) {
    match out {
        Decoded::Incomplete => (Seq::empty(), input),
        Decoded::Complete(e) => (seq![Ok(e)], Seq::empty()),
        Decoded::Malformed => (
            seq![Err(DecodeError { discarded: input.len() as usize })],
            Seq::empty(),
        ),
    }
}

/// The entries queued and the bytes kept after the first `n` bytes of `chunk`
/// went through the decoder `dec`, starting from the kept bytes `pending`.
/// Each byte is appended to the kept bytes, and the decoder is told whether
/// more bytes of the same chunk follow it.
pub open spec fn scan(
    dec: spec_fn(Seq<u8>, bool) -> Decoded,
    pending: Seq<u8>,
    chunk: Seq<u8>,
    n: nat,
) -> (Seq<RawEvent>, Seq<u8>)
    decreases n,
{
    if n == 0 {
        (Seq::empty(), pending)
    } else {
        let before = scan(dec, pending, chunk, (n - 1) as nat);
        let input = before.1.push(chunk[n - 1]);
        let after = step(input, dec(input, n < chunk.len()));
        (before.0 + after.0, after.1)
    }
}

/// The entries queued and the bytes kept after a whole chunk went through
/// the decoder `dec`, starting from the kept bytes `pending`.
pub open spec fn decode_chunk(
    dec: spec_fn(Seq<u8>, bool) -> Decoded,
    pending: Seq<u8>,
    chunk: Seq<u8>,
) -> (Seq<RawEvent>, Seq<u8>) {
    scan(dec, pending, chunk, chunk.len())
}

/// The entries queued and the bytes kept after the chunks of `chunks` went
/// through the decoder `dec` one after the other, starting from the kept
/// bytes `pending`.
pub open spec fn decode_chunks(
    dec: spec_fn(Seq<u8>, bool) -> Decoded,
    pending: Seq<u8>,
    chunks: Seq<Seq<u8>>,
) -> (Seq<RawEvent>, Seq<u8>)
    decreases chunks.len(),
{
    if chunks.len() == 0 {
        (Seq::empty(), pending)
    } else {
        let first = decode_chunk(dec, pending, chunks[0]);
        let rest = decode_chunks(dec, first.1, chunks.drop_first());
        (first.0 + rest.0, rest.1)
    }
}

/// Whether the decoder's answer never depends on being told that more bytes
/// of the chunk follow.
pub open spec fn ignores_more(dec: spec_fn(Seq<u8>, bool) -> Decoded) -> bool {
    forall|b: Seq<u8>| #[trigger] dec(b, true) == dec(b, false)
}

/// Up to the end of `a`, a chunk `a + b` is decoded as `a` alone.
proof fn lemma_scan_prefix(
    dec: spec_fn(Seq<u8>, bool) -> Decoded,
    pending: Seq<u8>,
    a: Seq<u8>,
    b: Seq<u8>,
    n: nat,
)
    requires
        ignores_more(dec),
        n <= a.len(),
    ensures
        scan(dec, pending, a + b, n) == scan(dec, pending, a, n),
    decreases n,
{
    if n > 0 {
        lemma_scan_prefix(dec, pending, a, b, (n - 1) as nat);
        let input = scan(dec, pending, a, (n - 1) as nat).1.push(a[n - 1]);
        assert((a + b)[n - 1] == a[n - 1]);
        assert(dec(input, true) == dec(input, false));
    }
}

/// Past the end of `a`, a chunk `a + b` is decoded as `a` followed by `b`.
proof fn lemma_scan_suffix(
    dec: spec_fn(Seq<u8>, bool) -> Decoded,
    pending: Seq<u8>,
    a: Seq<u8>,
    b: Seq<u8>,
    k: nat,
)
    requires
        ignores_more(dec),
        k <= b.len(),
    ensures
        scan(dec, pending, a + b, a.len() + k) == (
            decode_chunk(dec, pending, a).0 + scan(
                dec,
                decode_chunk(dec, pending, a).1,
                b,
                k,
            ).0,
            scan(dec, decode_chunk(dec, pending, a).1, b, k).1,
        ),
    decreases k,
{
    let first = decode_chunk(dec, pending, a);
    if k == 0 {
        lemma_scan_prefix(dec, pending, a, b, a.len());
        assert(first.0 + Seq::<RawEvent>::empty() =~= first.0);
    } else {
        lemma_scan_suffix(dec, pending, a, b, (k - 1) as nat);
        assert((a + b)[a.len() + k - 1] == b[k - 1]);
        let before = scan(dec, first.1, b, (k - 1) as nat);
        let input = before.1.push(b[k - 1]);
        let after = step(input, dec(input, k < b.len()));
        assert(first.0 + before.0 + after.0 =~= first.0 + (before.0 + after.0));
    }
}

/// Decoding `a + b` as one chunk gives what decoding `a`, then `b`, gives.
proof fn lemma_split_in_two(
    dec: spec_fn(Seq<u8>, bool) -> Decoded,
    pending: Seq<u8>,
    a: Seq<u8>,
    b: Seq<u8>,
)
    requires
        ignores_more(dec),
    ensures
        decode_chunk(dec, pending, a + b) == (
            decode_chunk(dec, pending, a).0 + decode_chunk(
                dec,
                decode_chunk(dec, pending, a).1,
                b,
            ).0,
            decode_chunk(dec, decode_chunk(dec, pending, a).1, b).1,
        ),
{
    lemma_scan_suffix(dec, pending, a, b, b.len());
}

/// However a byte stream is cut into chunks, the data path queues the same
/// entries, in the same order, and keeps the same bytes as it does on the
/// whole stream in one chunk, for a decoder whose answer does not depend on
/// whether more bytes of the chunk follow.
pub proof fn lemma_split_equivalence(
    dec: spec_fn(Seq<u8>, bool) -> Decoded,
    pending: Seq<u8>,
    chunks: Seq<Seq<u8>>,
)
    requires
        ignores_more(dec),
    ensures
        decode_chunks(dec, pending, chunks) == decode_chunk(dec, pending, chunks.flatten()),
    decreases chunks.len(),
{
    if chunks.len() > 0 {
        let first = decode_chunk(dec, pending, chunks[0]);
        lemma_split_equivalence(dec, first.1, chunks.drop_first());
        lemma_split_in_two(dec, pending, chunks[0], chunks.drop_first().flatten());
    } else {
        assert(decode_chunk(dec, pending, chunks.flatten()) == (Seq::<RawEvent>::empty(), pending));
    }
}

/// Whether every answer of the executable decoder `decode` is the one that
/// `dec` gives on the same bytes and flag.
pub open spec fn computes<F: Fn(&[u8], bool) -> Decoded>(
    decode: F,
    dec: spec_fn(Seq<u8>, bool) -> Decoded,
) -> bool {
    forall|b: &[u8], more: bool, r: Decoded|
        #[trigger] decode.ensures((b, more), r) ==> r == dec(b@, more)
}

/// The private state of the data path of one bridge: the bytes of an event
/// that is not complete yet. Byte chunks do not end where events end, so the
/// bytes are kept from one chunk to the next.
pub struct DataPath {
    buffer: Vec<u8>,
}

impl DataPath {
    /// The bytes kept for the next chunk.
    pub closed spec fn pending(&self) -> Seq<u8> {
        self.buffer@
    }

    /// A data path with no bytes kept.
    pub fn new() -> (r: Self)
        ensures
            r.pending() == Seq::<u8>::empty(),
    {
        DataPath { buffer: Vec::new() }
    }

    /// Number of bytes kept for the next chunk.
    pub fn pending_len(&self) -> (r: usize)
        ensures
            r == self.pending().len(),
    {
        self.buffer.len()
    }

    /// Runs one chunk of input bytes through `decode`, byte by byte, and
    /// queues each complete event and each decode error in `inbox`, in order.
    /// A decode error discards the bytes gathered; so does a complete event.
    /// Nothing happens once the bridge is released. Returns whether the
    /// registered task is to be woken: once per chunk that queued anything.
    pub fn feed<W, F: Fn(&[u8], bool) -> Decoded>(
        &mut self,
        chunk: &[u8],
        decode: &F,
        inbox: &mut Inbox<W>,
    ) -> (wake: bool)
        requires
            forall|b: &[u8], more: bool| decode.requires((b, more)),
        ensures
            final(inbox).slot() == old(inbox).slot(),
            final(inbox).released() == old(inbox).released(),
            old(inbox).released() ==> final(inbox).items() == old(inbox).items()
                && final(self).pending() == old(self).pending(),
            wake == (!old(inbox).released() && old(inbox).slot() is Some
                && final(inbox).items().len() > old(inbox).items().len()),
            forall|dec: spec_fn(Seq<u8>, bool) -> Decoded|
                #![trigger computes(*decode, dec)]
                computes(*decode, dec) && !old(inbox).released() ==> final(inbox).items()
                    == old(inbox).items() + decode_chunk(dec, old(self).pending(), chunk@).0
                    && final(self).pending() == decode_chunk(
                    dec,
                    old(self).pending(),
                    chunk@,
                ).1,
    {
        if inbox.is_released() {
            return false;
        }
        let start_len = inbox.len();
        let ghost q0 = inbox.items();
        let ghost p0 = self.buffer@;
        let mut i: usize = 0;
        while i < chunk.len()
            invariant
                0 <= i <= chunk.len(),
                forall|b: &[u8], more: bool| decode.requires((b, more)),
                !inbox.released(),
                inbox.slot() == old(inbox).slot(),
                q0 == old(inbox).items(),
                p0 == old(self).pending(),
                start_len == q0.len(),
                inbox.items().len() >= q0.len(),
                forall|dec: spec_fn(Seq<u8>, bool) -> Decoded|
                    #![trigger computes(*decode, dec)]
                    computes(*decode, dec) ==> inbox.items() == q0 + scan(
                        dec,
                        p0,
                        chunk@,
                        i as nat,
                    ).0 && self.buffer@ == scan(dec, p0, chunk@, i as nat).1,
            decreases chunk.len() - i,
        {
            self.buffer.push(chunk[i]);
            let more = i + 1 < chunk.len();
            let out = decode(self.buffer.as_slice(), more);
            let ghost input = self.buffer@;
            match out {
                Decoded::Incomplete => {},
                Decoded::Complete(e) => {
                    inbox.push(Ok(e));
                    self.buffer.clear();
                },
                Decoded::Malformed => {
                    let n = self.buffer.len();
                    inbox.push(Err(DecodeError { discarded: n }));
                    self.buffer.clear();
                },
            }
            proof {
                assert forall|dec: spec_fn(Seq<u8>, bool) -> Decoded|
                    #[trigger] computes(*decode, dec) implies inbox.items() == q0 + scan(
                    dec,
                    p0,
                    chunk@,
                    (i + 1) as nat,
                ).0 && self.buffer@ == scan(dec, p0, chunk@, (i + 1) as nat).1 by {
                    let before = scan(dec, p0, chunk@, i as nat);
                    assert(input == before.1.push(chunk@[i as int]));
                    assert(out == dec(input, more));
                    let after = step(input, out);
                    assert(inbox.items() =~= q0 + (before.0 + after.0));
                };
            }
            i = i + 1;
        }
        let end_len = inbox.len();
        end_len > start_len && inbox.waiter().is_some()
    }
}

} // verus!
