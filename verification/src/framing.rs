//! The byte stream as a sequence of frames: a length word, then as many
//! bytes as the word announces. These are the mathematical definitions that
//! the contracts of the reader and the writers speak of, and what holds
//! between them.

use crate::wire::{be_u32, lemma_be_u32_of_u32_be, u32_be};
use vstd::prelude::*;

verus! {

/// The header length in a packed length word: its high 8 bits.
pub open spec fn header_len(word: u32) -> nat {
    (word / 0x100_0000) as nat
}

/// The body length in a packed length word: its low 24 bits.
pub open spec fn body_len(word: u32) -> nat {
    (word % 0x100_0000) as nat
}

/// The packed length word of a header of `header` bytes and a body of `body`
/// bytes. A length that does not fit its field is cut to the field's width.
pub open spec fn length_word(header: nat, body: nat) -> u32 {
    ((header % 0x100) * 0x100_0000 + body % 0x100_0000) as u32
}

/// Whether the two lengths fit the fields of a packed length word.
pub open spec fn fits_word(header: nat, body: nat) -> bool {
    header < 0x100 && body < 0x100_0000
}

/// How many bytes follow a length word. A plain word is their number; a
/// packed word announces a header and a body.
pub open spec fn payload_len(word: u32, packed: bool) -> nat {
    if packed {
        header_len(word) + body_len(word)
    } else {
        word as nat
    }
}

/// How many bytes the buffer must hold before its first frame is complete:
/// four for the length word, then what the word announces.
pub open spec fn needed(bytes: Seq<u8>, packed: bool) -> nat {
    if bytes.len() < 4 {
        4
    } else {
        4 + payload_len(be_u32(bytes), packed)
    }
}

/// Whether `bytes` start with a complete frame.
pub open spec fn complete(bytes: Seq<u8>, packed: bool) -> bool {
    bytes.len() >= needed(bytes, packed)
}

/// The payload of the first frame of `bytes`.
pub open spec fn first_payload(bytes: Seq<u8>, packed: bool) -> Seq<u8>
    recommends
        complete(bytes, packed),
{
    bytes.subrange(4, needed(bytes, packed) as int)
}

/// What follows the first frame of `bytes`.
pub open spec fn after_first(bytes: Seq<u8>, packed: bool) -> Seq<u8>
    recommends
        complete(bytes, packed),
{
    bytes.skip(needed(bytes, packed) as int)
}

/// The payloads of all complete frames at the start of `bytes`, in order.
pub open spec fn payloads(bytes: Seq<u8>, packed: bool) -> Seq<Seq<u8>>
    decreases bytes.len(),
{
    if complete(bytes, packed) {
        seq![first_payload(bytes, packed)] + payloads(after_first(bytes, packed), packed)
    } else {
        Seq::empty()
    }
}

/// What is left of `bytes` behind its complete frames: the start of a frame
/// that has not arrived in full, or nothing.
pub open spec fn remainder(bytes: Seq<u8>, packed: bool) -> Seq<u8>
    decreases bytes.len(),
{
    if complete(bytes, packed) {
        remainder(after_first(bytes, packed), packed)
    } else {
        bytes
    }
}

/// A payload behind a plain length word.
pub open spec fn frame(payload: Seq<u8>) -> Seq<u8>
    recommends
        payload.len() <= u32::MAX,
{
    u32_be(payload.len() as u32) + payload
}

/// The frames of `items`, one after the other.
pub open spec fn frames(items: Seq<Seq<u8>>) -> Seq<u8>
    decreases items.len(),
{
    if items.len() == 0 {
        Seq::empty()
    } else {
        frame(items[0]) + frames(items.drop_first())
    }
}

/// Whether each of `items` is short enough for a plain length word.
pub open spec fn all_fit(items: Seq<Seq<u8>>) -> bool {
    forall|i: int| 0 <= i < items.len() ==> (#[trigger] items[i]).len() <= u32::MAX
}

/// All of `chunks`, one after the other.
pub open spec fn concat(chunks: Seq<Seq<u8>>) -> Seq<u8>
    decreases chunks.len(),
{
    if chunks.len() == 0 {
        Seq::empty()
    } else {
        chunks[0] + concat(chunks.drop_first())
    }
}

/// The payloads that a reader yields when `chunks` arrive one by one behind
/// `pending` and the reader takes every complete frame as soon as it is
/// there.
pub open spec fn yielded(pending: Seq<u8>, chunks: Seq<Seq<u8>>, packed: bool) -> Seq<Seq<u8>>
    decreases chunks.len(),
{
    if chunks.len() == 0 {
        payloads(pending, packed)
    } else {
        payloads(pending, packed) + yielded(
            remainder(pending, packed) + chunks[0],
            chunks.drop_first(),
            packed,
        )
    }
}

/// What such a reader holds unread after the last of `chunks`.
pub open spec fn unread(pending: Seq<u8>, chunks: Seq<Seq<u8>>, packed: bool) -> Seq<u8>
    decreases chunks.len(),
{
    if chunks.len() == 0 {
        remainder(pending, packed)
    } else {
        unread(remainder(pending, packed) + chunks[0], chunks.drop_first(), packed)
    }
}

/// The fields of a packed length word hold the lengths it was made of, when
/// these fit.
pub proof fn lemma_length_word_fields(header: nat, body: nat)
    requires
        fits_word(header, body),
    ensures
        header_len(length_word(header, body)) == header,
        body_len(length_word(header, body)) == body,
        payload_len(length_word(header, body), true) == header + body,
{
}

/// Bytes that arrive behind a complete frame change neither the frame nor
/// its payload; they come behind what followed it.
pub proof fn lemma_first_frame_stable(a: Seq<u8>, b: Seq<u8>, packed: bool)
    requires
        complete(a, packed),
    ensures
        complete(a + b, packed),
        needed(a + b, packed) == needed(a, packed),
        first_payload(a + b, packed) == first_payload(a, packed),
        after_first(a + b, packed) == after_first(a, packed) + b,
{
    let ab = a + b;
    assert(ab[0] == a[0] && ab[1] == a[1] && ab[2] == a[2] && ab[3] == a[3]);
    assert(be_u32(ab) == be_u32(a));
    assert(first_payload(ab, packed) =~= first_payload(a, packed));
    assert(after_first(ab, packed) =~= after_first(a, packed) + b);
}

/// Reading `a` and then `b` yields what reading `a + b` yields.
pub proof fn lemma_payloads_concat(a: Seq<u8>, b: Seq<u8>, packed: bool)
    ensures
        payloads(a + b, packed) == payloads(a, packed) + payloads(
            remainder(a, packed) + b,
            packed,
        ),
        remainder(a + b, packed) == remainder(remainder(a, packed) + b, packed),
    decreases a.len(),
{
    if complete(a, packed) {
        lemma_first_frame_stable(a, b, packed);
        let rest = after_first(a, packed);
        lemma_payloads_concat(rest, b, packed);
        assert(payloads(a + b, packed) =~= payloads(a, packed) + payloads(
            remainder(a, packed) + b,
            packed,
        ));
    } else {
        assert(payloads(a, packed) + payloads(a + b, packed) =~= payloads(a + b, packed));
    }
}

/// A frame is complete; its payload is the payload it was made of, and
/// nothing of it is left behind.
pub proof fn lemma_frame_complete(payload: Seq<u8>, tail: Seq<u8>)
    requires
        payload.len() <= u32::MAX,
    ensures
        complete(frame(payload) + tail, false),
        needed(frame(payload) + tail, false) == 4 + payload.len(),
        first_payload(frame(payload) + tail, false) == payload,
        after_first(frame(payload) + tail, false) == tail,
{
    let n = payload.len() as u32;
    let all = frame(payload) + tail;
    lemma_be_u32_of_u32_be(n);
    assert(all[0] == u32_be(n)[0] && all[1] == u32_be(n)[1] && all[2] == u32_be(n)[2] && all[3]
        == u32_be(n)[3]);
    assert(be_u32(all) == n);
    assert(first_payload(all, false) =~= payload);
    assert(after_first(all, false) =~= tail);
}

/// A payload behind a packed length word that announces its length is a
/// complete frame; its payload is the payload it was made of, and nothing
/// of it is left behind.
pub proof fn lemma_packed_frame_complete(word: u32, payload: Seq<u8>, tail: Seq<u8>)
    requires
        payload.len() == payload_len(word, true),
    ensures
        complete(u32_be(word) + payload + tail, true),
        be_u32(u32_be(word) + payload + tail) == word,
        first_payload(u32_be(word) + payload + tail, true) == payload,
        after_first(u32_be(word) + payload + tail, true) == tail,
{
    let all = u32_be(word) + payload + tail;
    lemma_be_u32_of_u32_be(word);
    assert(all[0] == u32_be(word)[0] && all[1] == u32_be(word)[1] && all[2] == u32_be(word)[2]
        && all[3] == u32_be(word)[3]);
    assert(be_u32(all) == word);
    assert(first_payload(all, true) =~= payload);
    assert(after_first(all, true) =~= tail);
}

/// A frame written behind others comes last in the stream.
pub proof fn lemma_frames_push(items: Seq<Seq<u8>>, last: Seq<u8>)
    ensures
        frames(items.push(last)) == frames(items) + frame(last),
    decreases items.len(),
{
    let all = items.push(last);
    if items.len() == 0 {
        assert(all[0] == last);
        assert(all.drop_first() =~= Seq::<Seq<u8>>::empty());
        assert(frames(all.drop_first()) =~= Seq::<u8>::empty());
        assert(frames(all) =~= frames(items) + frame(last));
    } else {
        assert(all[0] == items[0]);
        assert(items.push(last).drop_first() =~= items.drop_first().push(last));
        lemma_frames_push(items.drop_first(), last);
        assert(frames(items.push(last)) =~= frames(items) + frame(last));
    }
}

/// Reading what was written gives back what was written: the bytes of the
/// frames of `items`, whatever follows them, yield `items` in order and then
/// what the bytes behind them yield.
pub proof fn lemma_round_trip(items: Seq<Seq<u8>>, tail: Seq<u8>)
    requires
        all_fit(items),
    ensures
        payloads(frames(items) + tail, false) == items + payloads(tail, false),
        remainder(frames(items) + tail, false) == remainder(tail, false),
    decreases items.len(),
{
    if items.len() == 0 {
        assert(frames(items) + tail =~= tail);
        assert(items + payloads(tail, false) =~= payloads(tail, false));
    } else {
        let rest = items.drop_first();
        let behind = frames(rest) + tail;
        assert(frames(items) + tail =~= frame(items[0]) + behind);
        lemma_frame_complete(items[0], behind);
        assert(all_fit(rest)) by {
            assert forall|i: int| 0 <= i < rest.len() implies (#[trigger] rest[i]).len()
                <= u32::MAX by {
                assert(rest[i] == items[i + 1]);
            }
        }
        lemma_round_trip(rest, tail);
        assert(seq![items[0]] + (rest + payloads(tail, false)) =~= items + payloads(tail, false));
    }
}

/// A stream that ends with the last of its frames yields the frames'
/// payloads and leaves nothing unread.
pub proof fn lemma_round_trip_whole(items: Seq<Seq<u8>>)
    requires
        all_fit(items),
    ensures
        payloads(frames(items), false) == items,
        remainder(frames(items), false) == Seq::<u8>::empty(),
{
    lemma_round_trip(items, Seq::empty());
    assert(frames(items) + Seq::<u8>::empty() =~= frames(items));
    assert(items + Seq::<Seq<u8>>::empty() =~= items);
}

/// However the bytes are cut into chunks, the reader yields the same
/// payloads and is left with the same unread bytes as when all the bytes
/// arrive at once.
pub proof fn lemma_chunks_do_not_matter(pending: Seq<u8>, chunks: Seq<Seq<u8>>, packed: bool)
    ensures
        yielded(pending, chunks, packed) == payloads(pending + concat(chunks), packed),
        unread(pending, chunks, packed) == remainder(pending + concat(chunks), packed),
    decreases chunks.len(),
{
    if chunks.len() == 0 {
        assert(pending + concat(chunks) =~= pending);
    } else {
        let rest = chunks.drop_first();
        let next = remainder(pending, packed) + chunks[0];
        lemma_chunks_do_not_matter(next, rest, packed);
        lemma_payloads_concat(pending, chunks[0] + concat(rest), packed);
        assert(pending + concat(chunks) =~= pending + (chunks[0] + concat(rest)));
        assert(remainder(pending, packed) + (chunks[0] + concat(rest)) =~= next + concat(rest));
    }
}

/// A frame of which only a part has arrived is not complete: nothing is
/// yielded, and the part stays unread.
pub proof fn lemma_truncated_frame(payload: Seq<u8>, k: int)
    requires
        payload.len() <= u32::MAX,
        0 < k < 4 + payload.len(),
    ensures
        !complete(frame(payload).take(k), false),
        payloads(frame(payload).take(k), false) == Seq::<Seq<u8>>::empty(),
        remainder(frame(payload).take(k), false) == frame(payload).take(k),
        remainder(frame(payload).take(k), false).len() > 0,
{
    let n = payload.len() as u32;
    let part = frame(payload).take(k);
    lemma_be_u32_of_u32_be(n);
    if k >= 4 {
        assert(part[0] == u32_be(n)[0] && part[1] == u32_be(n)[1] && part[2] == u32_be(n)[2]
            && part[3] == u32_be(n)[3]);
        assert(be_u32(part) == n);
    }
}

} // verus!
