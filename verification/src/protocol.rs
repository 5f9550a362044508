//! The update protocol: command bytes, fragments, and what they cost on the wire.
//!
//! The device drives the transfer: it asks with a one-byte command, and the host answers with
//! data.

use vstd::prelude::*;

use crate::bytes::part_of;

verus! {

/// Device asks for the fixed header.
pub const SEND_COMPONENT_FIXED_HEADER: u8 = 0x01;

/// Device asks for the variable header; its fragments are asked for one by one.
pub const SEND_COMPONENT_VARIABLE_HEADER: u8 = 0x02;

/// Device asks for the payload; its fragments are asked for one by one.
pub const SEND_COMPONENT_PAYLOAD: u8 = 0x03;

/// Device asks for the trailer.
pub const SEND_COMPONENT_TRAILER: u8 = 0x04;

/// Device asks for the next fragment.
pub const SEND_NEXT_FRAGMENT: u8 = 0xA0;

/// Device asks for the delta header.
pub const SEND_DELTA_HEADER: u8 = 0xB0;

/// Device reports that the update is complete.
pub const SUCCESS: u8 = 0xFF;

/// Largest number of data bytes in one fragment.
pub const PACKET_BUFFER_SIZE: usize = 64;

/// What every packet costs besides its content: 4-byte preamble, 2-byte channel id, 2-byte
/// length, CRC-8.
pub const MUX: usize = 9;

// ---------------------------------------------------------------------------
//  Fragments
// ---------------------------------------------------------------------------

/// The fragment of `data` that starts at `pos`.
pub open spec fn fragment_at(data: Seq<u8>, pos: int) -> Seq<u8> {
    data.subrange(
        pos,
        if data.len() - pos < PACKET_BUFFER_SIZE {
            data.len() as int
        } else {
            pos + PACKET_BUFFER_SIZE
        },
    )
}

/// The fragments of `data`, in order.
pub open spec fn fragments(data: Seq<u8>) -> Seq<Seq<u8>>
    decreases data.len(),
{
    if data.len() == 0 {
        Seq::empty()
    } else if data.len() <= PACKET_BUFFER_SIZE {
        seq![data]
    } else {
        seq![data.take(PACKET_BUFFER_SIZE as int)] + fragments(
            data.skip(PACKET_BUFFER_SIZE as int),
        )
    }
}

/// The number of fragments that `len` bytes take.
pub open spec fn fragment_count(len: nat) -> nat {
    (len + PACKET_BUFFER_SIZE - 1) as nat / PACKET_BUFFER_SIZE as nat
}

/// The length of the last of the fragments that `len` bytes take; 0 if there is none.
pub open spec fn last_fragment(len: nat) -> nat {
    if len == 0 {
        0
    } else {
        (len - PACKET_BUFFER_SIZE * (fragment_count(len) - 1)) as nat
    }
}

/// The number of fragments that `len` bytes take, and the length of the last one.
pub fn frag_count_and_last(len: usize) -> (r: (usize, usize))
    ensures
        r.0 == fragment_count(len as nat),
        r.1 == last_fragment(len as nat),
{
    if len == 0 {
        return (0, 0);
    }
    let full: usize = len / PACKET_BUFFER_SIZE;
    let rem: usize = len % PACKET_BUFFER_SIZE;
    if rem == 0 {
        (full, PACKET_BUFFER_SIZE)
    } else {
        (full + 1, rem)
    }
}

/// Cuts a block of bytes into fragments, to be handed out one at a time.
pub struct Fragmenter {
    data: Vec<u8>,
    pos: usize,
}

/// The mathematical state of a [`Fragmenter`]: the bytes, and how many have been handed out.
pub struct FragmenterState {
    pub data: Seq<u8>,
    pub pos: nat,
}

impl FragmenterState {
    /// Whether every byte has been handed out.
    pub open spec fn exhausted(self) -> bool {
        self.pos >= self.data.len()
    }

    /// The fragment handed out next, and the state after it.
    pub open spec fn next(self) -> (Option<Seq<u8>>, Self) {
        if self.exhausted() {
            (None, self)
        } else {
            let fragment = fragment_at(self.data, self.pos as int);
            (Some(fragment), FragmenterState { pos: self.pos + fragment.len(), ..self })
        }
    }
}

/// The number of the fragment handed out next, counted from 1.
pub open spec fn next_fragment_number(f: FragmenterState) -> Option<usize> {
    if f.exhausted() {
        None
    } else {
        Some((f.pos / PACKET_BUFFER_SIZE as nat + 1) as usize)
    }
}

impl View for Fragmenter {
    type V = FragmenterState;

    closed spec fn view(&self) -> FragmenterState {
        FragmenterState { data: self.data@, pos: self.pos as nat }
    }
}

impl Fragmenter {
    #[verifier::type_invariant]
    spec fn inv(self) -> bool {
        &&& self.pos <= self.data@.len()
        &&& self.pos % PACKET_BUFFER_SIZE == 0 || self.pos == self.data@.len()
    }

    /// A fragmenter at the start of `data`.
    pub fn new(data: Vec<u8>) -> (f: Self)
        ensures
            f@ == (FragmenterState { data: data@, pos: 0 }),
    {
        Fragmenter { data, pos: 0 }
    }

    /// How many fragments the data takes in all.
    pub fn get_total_fragments(&self) -> (n: usize)
        ensures
            n == fragment_count(self@.data.len()),
    {
        frag_count_and_last(self.data.len()).0
    }

    /// The number of the fragment handed out next, counted from 1.
    pub fn get_next_fragment_number(&self) -> (n: Option<usize>)
        ensures
            n == next_fragment_number(self@),
    {
        if self.pos >= self.data.len() {
            None
        } else {
            Some(self.pos / PACKET_BUFFER_SIZE + 1)
        }
    }

    /// Whether every byte has been handed out.
    pub fn is_exhausted(&self) -> (b: bool)
        ensures
            b == self@.exhausted(),
    {
        self.pos >= self.data.len()
    }

    /// Hands out the next fragment.
    pub fn get_next_fragment(&mut self) -> (r: Option<Vec<u8>>)
        ensures
            final(self)@ == old(self)@.next().1,
            match (r, old(self)@.next().0) {
                (Some(v), Some(w)) => v@ == w,
                (None, None) => true,
                _ => false,
            },
    {
        proof {
            use_type_invariant(&*self);
        }
        let len: usize = self.data.len();
        if self.pos >= len {
            return None;
        }
        let end: usize = if len - self.pos < PACKET_BUFFER_SIZE {
            len
        } else {
            self.pos + PACKET_BUFFER_SIZE
        };
        let fragment: Vec<u8> = part_of(self.data.as_slice(), self.pos, end);
        self.pos = end;
        Some(fragment)
    }
}

/// The fragments of a block of bytes, put together again, are that block; there are as many
/// as counted, none is empty, and none exceeds the packet buffer.
pub proof fn law_fragments(data: Seq<u8>)
    ensures
        fragments(data).flatten() == data,
        fragments(data).len() == fragment_count(data.len()),
        forall|k: int|
            0 <= k < fragments(data).len() ==> 0 < (#[trigger] fragments(data)[k]).len()
                <= PACKET_BUFFER_SIZE,
    decreases data.len(),
{
    let all = fragments(data);
    if data.len() == 0 {
        assert(all.flatten() =~= data);
    } else if data.len() <= PACKET_BUFFER_SIZE {
        assert(all.drop_first() =~= Seq::<Seq<u8>>::empty());
        assert(all.drop_first().flatten() =~= Seq::<u8>::empty());
        assert(all.flatten() =~= data);
    } else {
        let first = data.take(PACKET_BUFFER_SIZE as int);
        let rest = data.skip(PACKET_BUFFER_SIZE as int);
        law_fragments(rest);
        assert(all.drop_first() =~= fragments(rest));
        assert(all.flatten() == first + fragments(rest).flatten());
        assert(first + rest =~= data);
        assert forall|k: int| 0 <= k < all.len() implies 0 < (#[trigger] all[k]).len()
            <= PACKET_BUFFER_SIZE by {
            if k > 0 {
                assert(all[k] == fragments(rest)[k - 1]);
            }
        }
    }
}

/// A fragmenter hands out the fragments of what it has left, one by one.
pub proof fn law_fragmenter_hands_out_fragments(f: FragmenterState)
    requires
        f.pos <= f.data.len(),
    ensures
        match f.next().0 {
            None => fragments(f.data.skip(f.pos as int)) == Seq::<Seq<u8>>::empty(),
            Some(fragment) => fragments(f.data.skip(f.pos as int)) == seq![fragment] + fragments(
                f.next().1.data.skip(f.next().1.pos as int),
            ),
        },
{
    let left = f.data.skip(f.pos as int);
    if !f.exhausted() {
        let fragment = fragment_at(f.data, f.pos as int);
        let after = f.data.skip((f.pos + fragment.len()) as int);
        if left.len() <= PACKET_BUFFER_SIZE {
            assert(fragment =~= left);
            assert(after =~= Seq::<u8>::empty());
            assert(fragments(left) =~= seq![fragment] + fragments(after));
        } else {
            assert(fragment =~= left.take(PACKET_BUFFER_SIZE as int));
            assert(after =~= left.skip(PACKET_BUFFER_SIZE as int));
        }
    }
}

// ---------------------------------------------------------------------------
//  Cost on the wire
// ---------------------------------------------------------------------------

/// What an update costs on the wire, multiplexing included.
#[derive(Debug, Clone, Copy, PartialEq, Eq, Structural)]
pub struct WireCost {
    /// Packets that the device sends, the final success report not counted.
    pub requests: usize,
    /// Bytes from device to host, the final success report not counted.
    pub to_host: usize,
    /// Bytes from host to device.
    pub to_device: usize,
}

/// Bytes of the packet that reports success.
pub const SUCCESS_COST: usize = 10;

/// The bytes that a packet with `len` bytes of content takes.
pub open spec fn packet_cost(len: nat) -> nat {
    len + MUX as nat
}

/// The bytes that `len` bytes of data take when sent as fragments: each fragment travels in a
/// packet of its own, with a CRC-8 behind its data.
pub open spec fn fragments_cost(len: nat) -> nat {
    len + 10 * fragment_count(len)
}

/// The bytes from host to device besides fragments: the hello (2 bytes), the fixed header with
/// its CRC-8, and the 4-byte trailer.
pub open spec fn frame_cost(fixed_len: nat) -> nat {
    packet_cost(2) + packet_cost(fixed_len + 1) + packet_cost(4)
}

/// The bytes from device to host: the hello response (7 bytes), and one byte in each request
/// after it.
pub open spec fn to_host_cost(requests: nat) -> nat {
    packet_cost(7) + 10 * (requests - 1) as nat
}

/// The packets from the device in a full update, up to the one that asks for the trailer: the hello
/// response, one request each for fixed header, variable header, payload and trailer, and one for
/// every fragment.
pub open spec fn full_requests(variable_len: nat, payload_len: nat) -> nat {
    5 + fragment_count(variable_len) + fragment_count(payload_len)
}

/// The bytes from host to device in a full update.
pub open spec fn full_to_device(fixed_len: nat, variable_len: nat, payload_len: nat) -> nat {
    frame_cost(fixed_len) + fragments_cost(variable_len) + fragments_cost(payload_len)
}

/// The packets from the device in a delta update, up to the one that asks for the trailer: the
/// hello response, one request each for fixed header, delta header and trailer, and one for every
/// fragment.
pub open spec fn delta_requests(patch_len: nat) -> nat {
    4 + fragment_count(patch_len)
}

/// The bytes from host to device in a delta update.
pub open spec fn delta_to_device(fixed_len: nat, header_len: nat, patch_len: nat) -> nat {
    frame_cost(fixed_len) + packet_cost(header_len + 1) + fragments_cost(patch_len)
}

fn cost_of_fragments(len: usize) -> (n: usize)
    requires
        fragments_cost(len as nat) <= usize::MAX,
    ensures
        n == fragments_cost(len as nat),
{
    let (count, _) = frag_count_and_last(len);
    len + 10 * count
}

/// The cost of a full update: fixed header, variable header fragments, payload fragments,
/// trailer.
pub fn full_update_cost(fixed_len: usize, variable_len: usize, payload_len: usize) -> (c: WireCost)
    requires
        frame_cost(fixed_len as nat) + fragments_cost(variable_len as nat) + fragments_cost(
            payload_len as nat,
        ) <= usize::MAX,
    ensures
        c.requests == 5 + fragment_count(variable_len as nat) + fragment_count(payload_len as nat),
        c.to_device == frame_cost(fixed_len as nat) + fragments_cost(variable_len as nat)
            + fragments_cost(payload_len as nat),
        c.requests == full_requests(variable_len as nat, payload_len as nat),
        c.to_host == to_host_cost(c.requests as nat),
        c.to_device == full_to_device(fixed_len as nat, variable_len as nat, payload_len as nat),
{
    let (vh, _) = frag_count_and_last(variable_len);
    let (pl, _) = frag_count_and_last(payload_len);
    let variable: usize = cost_of_fragments(variable_len);
    let payload: usize = cost_of_fragments(payload_len);
    let requests: usize = 5 + vh + pl;
    let to_host: usize = MUX + 7 + 10 * (requests - 1);
    let to_device: usize = MUX + 2 + (MUX + fixed_len + 1) + variable + payload + (MUX + 4);
    WireCost { requests, to_host, to_device }
}

/// The cost of a delta update: fixed header, delta header, patch fragments, trailer.
pub fn delta_update_cost(fixed_len: usize, header_len: usize, patch_len: usize) -> (c: WireCost)
    requires
        frame_cost(fixed_len as nat) + packet_cost((header_len + 1) as nat) + fragments_cost(
            patch_len as nat,
        ) <= usize::MAX,
    ensures
        c.requests == 4 + fragment_count(patch_len as nat),
        c.to_device == frame_cost(fixed_len as nat) + packet_cost((header_len + 1) as nat)
            + fragments_cost(patch_len as nat),
        c.requests == delta_requests(patch_len as nat),
        c.to_host == to_host_cost(c.requests as nat),
        c.to_device == delta_to_device(fixed_len as nat, header_len as nat, patch_len as nat),
{
    let (count, _) = frag_count_and_last(patch_len);
    let patch: usize = cost_of_fragments(patch_len);
    let requests: usize = 4 + count;
    let to_host: usize = MUX + 7 + 10 * (requests - 1);
    let to_device: usize = MUX + 2 + (MUX + fixed_len + 1) + (MUX + header_len + 1) + patch + (MUX
        + 4);
    WireCost { requests, to_host, to_device }
}

// ---------------------------------------------------------------------------
//  What the numbers are
// ---------------------------------------------------------------------------

/// Fragment `k` of a block is what stands from byte `64 * k` on: 64 bytes of it, or what is left.
pub proof fn law_fragment_contents(data: Seq<u8>, k: int)
    requires
        0 <= k < fragments(data).len(),
    ensures
        fragments(data)[k] == (if data.len() - 64 * k < 64 {
            data.subrange(64 * k, data.len() as int)
        } else {
            data.subrange(64 * k, 64 * k + 64)
        }),
        64 * k < data.len(),
    decreases data.len(),
{
    if data.len() <= 64 {
        assert(fragments(data)[k] =~= data.subrange(0, data.len() as int));
    } else {
        let rest = data.skip(64);
        assert(data.take(64) =~= data.subrange(0, 64));
        if k > 0 {
            law_fragment_contents(rest, k - 1);
            assert(fragments(data)[k] == fragments(rest)[k - 1]);
            let at = 64 * (k - 1);
            if rest.len() - at < 64 {
                assert(rest.subrange(at, rest.len() as int) =~= data.subrange(
                    64 * k,
                    data.len() as int,
                ));
            } else {
                assert(rest.subrange(at, at + 64) =~= data.subrange(64 * k, 64 * k + 64));
            }
        }
    }
}

/// So many fragments are counted that one fewer would not hold the bytes, and one more would be
/// empty; the last one holds what the full ones before it leave over.
pub proof fn law_fragment_count(len: nat)
    ensures
        ({
            let n = fragment_count(len) as int;
            &&& 64 * (n - 1) < len <= 64 * n
            &&& len > 0 ==> 64 * (n - 1) + last_fragment(len) == len && 0 < last_fragment(len) <= 64
            &&& len == 0 ==> n == 0 && last_fragment(len) == 0
        }),
{
}

/// A fragmenter that has handed out `k` whole fragments is at byte `64 * k`, is exhausted when no
/// byte is left, and otherwise has number `k + 1` up next; that is fragment `k` of the block.
pub proof fn law_fragmenter_counts(data: Seq<u8>, k: nat)
    requires
        data.len() <= usize::MAX,
        64 * k <= data.len(),
    ensures
        ({
            let f = FragmenterState { data, pos: 64 * k };
            &&& f.exhausted() <==> data.len() == 64 * k
            &&& f.exhausted() ==> f.next() == (None::<Seq<u8>>, f) && next_fragment_number(f) is None
            &&& !f.exhausted() ==> {
                &&& next_fragment_number(f) == Some((k + 1) as usize)
                &&& f.next().0 == Some(fragments(data)[k as int])
                &&& k < fragments(data).len()
                &&& f.next().1.data == data
                &&& f.next().1.pos == (if data.len() < 64 * k + 64 {
                    data.len()
                } else {
                    64 * k + 64
                })
            }
        }),
{
    let f = FragmenterState { data, pos: 64 * k };
    law_fragments(data);
    law_fragment_count(data.len());
    if !f.exhausted() {
        law_fragment_contents(data, k as int);
        assert((64 * k) / 64 == k);
        assert(f.next().0->Some_0 =~= fragments(data)[k as int]);
    }
}

/// What the fragments of a block cost is what they cost one by one: each its own bytes, one byte
/// of CRC, and the nine bytes of its packet.
pub proof fn law_fragments_cost(data: Seq<u8>)
    ensures
        fragments_cost(data.len()) == cost_of_all(fragments(data)),
    decreases data.len(),
{
    if data.len() > 0 {
        let all = fragments(data);
        let first = all[0];
        let rest = if data.len() <= 64 {
            Seq::empty()
        } else {
            data.skip(64)
        };
        law_fragments_cost(rest);
        assert(all.drop_first() =~= fragments(rest));
        law_fragment_count(data.len());
        law_fragment_count(rest.len());
        assert(fragment_count(data.len()) == fragment_count(rest.len()) + 1);
        assert(first.len() + rest.len() == data.len());
        assert(cost_of_all(all) == first.len() + 10 + cost_of_all(fragments(rest)));
    }
}

/// What some blocks of data cost, each sent with a CRC in a packet of its own.
pub open spec fn cost_of_all(blocks: Seq<Seq<u8>>) -> nat
    decreases blocks.len(),
{
    if blocks.len() == 0 {
        0
    } else {
        blocks[0].len() + 10 + cost_of_all(blocks.drop_first())
    }
}

/// What a packet costs, what the packets besides fragments cost together, and what the requests
/// cost: nine bytes for each packet and what it holds.
pub proof fn law_packets_cost(len: nat, fixed_len: nat, requests: nat)
    requires
        requests > 0,
    ensures
        packet_cost(len) == len + 9,
        frame_cost(fixed_len) == (2 + 9) + (fixed_len + 1 + 9) + (4 + 9),
        to_host_cost(requests) == (7 + 9) + 10 * (requests - 1),
{
}

} // verus!
