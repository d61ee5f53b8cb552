//! Checksums that the guest leaves to the device.
//!
//! A guest that offloads checksums sets `VIRTIO_NET_HDR_F_NEEDS_CSUM` in the virtio header and
//! puts only the sum over the pseudo header into the checksum field. A backend without a kernel
//! network stack behind it cannot finish that, so the device does.

use vstd::prelude::*;

use crate::bytes::{get_le16, le16};
use crate::net::VNET_HDR_LEN;

verus! {

/// Flag in the virtio header: the checksum of the frame is to be completed.
pub const VIRTIO_NET_HDR_F_NEEDS_CSUM: u8 = 1;

/// Where in the virtio header the start of the summed segment stands.
pub const VNET_CSUM_START_OFFSET: usize = 6;

/// Where in the virtio header the offset of the checksum field in the segment stands.
pub const VNET_CSUM_OFFSET_OFFSET: usize = 8;

/// The 16-bit big-endian integer at position `at` of `b`.
pub open spec fn be16(b: Seq<u8>, at: int) -> nat {
    (256 * b[at] + b[at + 1]) as nat
}

/// The sum of the 16-bit big-endian words of `s`; an odd last byte counts as the high half of a
/// word.
pub open spec fn word_sum(s: Seq<u8>) -> nat
    decreases s.len(),
{
    if s.len() == 0 {
        0
    } else if s.len() == 1 {
        (256 * s[0]) as nat
    } else {
        be16(s, 0) + word_sum(s.skip(2))
    }
}

/// What adding up to `sum` with end-around carry gives in 16 bits.
pub open spec fn ones_fold(sum: nat) -> nat {
    if sum == 0 {
        0
    } else {
        1 + ((sum - 1) as nat) % 65535
    }
}

/// The Internet checksum of `s`: the ones' complement of the ones' complement sum of its words.
pub open spec fn internet_checksum(s: Seq<u8>) -> u16 {
    (65535 - ones_fold(word_sum(s))) as u16
}

/// Where the segment that the virtio header of `frame` speaks of starts.
pub open spec fn segment_start(frame: Seq<u8>) -> int {
    VNET_HDR_LEN + le16(frame, VNET_CSUM_START_OFFSET as int)
}

/// Where the checksum field that the virtio header of `frame` speaks of stands.
pub open spec fn checksum_field(frame: Seq<u8>) -> int {
    segment_start(frame) + le16(frame, VNET_CSUM_OFFSET_OFFSET as int)
}

/// The guest asks for the checksum of `frame`, and the frame is long enough to hold it.
pub open spec fn wants_checksum(frame: Seq<u8>) -> bool {
    &&& frame.len() >= VNET_HDR_LEN
    &&& frame[0] & VIRTIO_NET_HDR_F_NEEDS_CSUM != 0
    &&& checksum_field(frame) + 2 <= frame.len()
}

/// `frame` with its checksum completed, where the guest asks for that.
pub open spec fn finalized(frame: Seq<u8>) -> Seq<u8> {
    if wants_checksum(frame) {
        let sum = internet_checksum(frame.skip(segment_start(frame)));
        frame.update(checksum_field(frame), (sum / 256) as u8).update(
            checksum_field(frame) + 1,
            (sum % 256) as u8,
        )
    } else {
        frame
    }
}

/// Adding a word to a folded sum, with end-around carry, is folding the longer sum.
proof fn fold_step(total: nat, word: nat)
    requires
        word <= 65535,
    ensures
        ones_fold(total) <= 65535,
        ones_fold(total + word) == (if ones_fold(total) + word > 65535 {
            (ones_fold(total) + word - 65535) as nat
        } else {
            ones_fold(total) + word
        }),
{
}

/// Folding keeps the remainder modulo 65535.
proof fn fold_keeps_remainder(total: nat)
    ensures
        (total + (65535 - ones_fold(total))) % 65535 == 0,
        ones_fold(total) <= 65535,
{
}

/// Exchanging one word changes the sum of the words by the difference.
proof fn word_sum_of_update(s: Seq<u8>, at: int, high: u8, low: u8)
    requires
        0 <= at,
        at % 2 == 0,
        at + 2 <= s.len(),
    ensures
        word_sum(s.update(at, high).update(at + 1, low)) + be16(s, at) == word_sum(s) + 256 * high
            + low,
        word_sum(s) >= be16(s, at),
    decreases s.len(),
{
    let t = s.update(at, high).update(at + 1, low);
    if at == 0 {
        assert(t.skip(2) =~= s.skip(2));
    } else {
        assert(t.skip(2) =~= s.skip(2).update(at - 2, high).update(at - 1, low));
        word_sum_of_update(s.skip(2), at - 2, high, low);
    }
}

/// What the first `n` bytes of `s` add up to, where every second byte, from the first one on,
/// counts 256 times.
pub open spec fn weighed(s: Seq<u8>, n: int) -> int
    decreases n,
{
    if n <= 0 {
        0
    } else if n % 2 == 1 {
        weighed(s, n - 1) + 256 * s[n - 1]
    } else {
        weighed(s, n - 1) + s[n - 1]
    }
}

/// The first two bytes of a sequence count as one word.
proof fn weighed_without_word(s: Seq<u8>, n: int)
    requires
        0 <= n,
        n + 2 <= s.len(),
    ensures
        weighed(s, n + 2) == 256 * s[0] + s[1] + weighed(s.skip(2), n),
    decreases n,
{
    if n == 0 {
        assert(weighed(s, 2) == weighed(s, 1) + s[1]);
        assert(weighed(s, 1) == weighed(s, 0) + 256 * s[0]);
    } else {
        weighed_without_word(s, n - 1);
        assert(s.skip(2)[n - 1] == s[n + 1]);
    }
}

/// The words of a sequence add up to what its bytes weigh.
pub proof fn words_weigh_as_bytes(s: Seq<u8>)
    ensures
        word_sum(s) == weighed(s, s.len() as int),
    decreases s.len(),
{
    if s.len() >= 2 {
        words_weigh_as_bytes(s.skip(2));
        weighed_without_word(s, s.len() - 2);
    } else if s.len() == 1 {
        assert(weighed(s, 1) == weighed(s, 0) + 256 * s[0]);
    }
}

/// The offset that the bytes `at` and `at + 1` of a virtio header give.
pub open spec fn header_offset(frame: Seq<u8>, at: int) -> int {
    frame[at] + 256 * frame[at + 1]
}

/// The first bit of the header is set, and the two bytes that its offsets point at are there.
pub open spec fn header_asks(frame: Seq<u8>) -> bool {
    &&& frame.len() >= 12
    &&& frame[0] % 2 == 1
    &&& 12 + header_offset(frame, 6) + header_offset(frame, 8) + 2 <= frame.len()
}

/// The header asks in the sense of its bytes exactly where the checksum is completed.
proof fn asking_header(frame: Seq<u8>)
    ensures
        header_asks(frame) == wants_checksum(frame),
        frame.len() >= 12 ==> {
            &&& segment_start(frame) == 12 + header_offset(frame, 6)
            &&& checksum_field(frame) == 12 + header_offset(frame, 6) + header_offset(frame, 8)
        },
{
    if frame.len() >= 12 {
        let flags: u8 = frame[0];
        assert((flags & 1 != 0) == (flags % 2 == 1)) by (bit_vector);
    }
}

/// `out` is `frame` with its checksum completed. If the header asks for it, the two bytes that it
/// points at are the one big-endian word that complements the segment as the guest left it: the
/// segment and the word together are divisible by 65535. Of the two such words, 65535 stands only
/// for a segment of zeros. All other bytes are the same, and so is the whole frame if the header
/// does not ask.
pub open spec fn completes(frame: Seq<u8>, out: Seq<u8>) -> bool {
    let start = 12 + header_offset(frame, 6);
    let field = start + header_offset(frame, 8);
    let word = 256 * out[field] + out[field + 1];
    let weight = weighed(frame.skip(start), frame.len() - start);
    &&& out.len() == frame.len()
    &&& !header_asks(frame) ==> out == frame
    &&& header_asks(frame) ==> {
        &&& (weight + word) % 65535 == 0
        &&& word == 65535 <==> weight == 0
        &&& forall|i: int|
            0 <= i < frame.len() && i != field && i != field + 1 ==> #[trigger] out[i] == frame[i]
    }
}

/// Whenever the header asks for it, the checksum is completed, and otherwise nothing changes.
pub proof fn checksum_complements_the_segment(frame: Seq<u8>)
    ensures
        completes(frame, finalized(frame)),
{
    asking_header(frame);
    if header_asks(frame) {
        let start = segment_start(frame);
        let segment = frame.skip(start);
        let sum = internet_checksum(segment);
        words_weigh_as_bytes(segment);
        fold_keeps_remainder(word_sum(segment));
        let high = (sum / 256) as u8;
        let low = (sum % 256) as u8;
        assert(256 * high + low == sum);
    }
}

/// A completed frame passes the receiver's test, whenever the header asks for the checksum: the
/// words of its segment, together with the sum over the pseudo header that the guest had left in
/// the checksum field, add up to zero in ones' complement. The field has to lie on a word boundary
/// of the segment.
pub proof fn finalized_frame_verifies(frame: Seq<u8>)
    requires
        frame.len() >= 12,
        frame[0] % 2 == 1,
        12 + header_offset(frame, 6) + header_offset(frame, 8) + 2 <= frame.len(),
        frame[8] % 2 == 0,
    ensures
        ({
            let start = 12 + header_offset(frame, 6);
            let field = start + header_offset(frame, 8);
            let segment = finalized(frame).skip(start);
            let pseudo = 256 * frame[field] + frame[field + 1];
            &&& (weighed(segment, segment.len() as int) + pseudo) % 65535 == 0
            &&& (word_sum(segment) + pseudo) % 65535 == 0
        }),
{
    asking_header(frame);
    let start = segment_start(frame);
    let field = checksum_field(frame);
    let segment = frame.skip(start);
    let sum = internet_checksum(segment);
    let high = (sum / 256) as u8;
    let low = (sum % 256) as u8;
    fold_keeps_remainder(word_sum(segment));
    assert(finalized(frame).skip(start) =~= segment.update(field - start, high).update(
        field - start + 1,
        low,
    ));
    assert((field - start) % 2 == 0);
    word_sum_of_update(segment, field - start, high, low);
    words_weigh_as_bytes(finalized(frame).skip(start));
    assert(be16(segment, field - start) == be16(frame, field));
    assert(256 * high + low == sum);
}

/// Completing a checksum changes nothing but the two bytes of the checksum field.
pub proof fn finalizing_touches_only_the_field(frame: Seq<u8>, i: int)
    requires
        0 <= i < frame.len(),
        wants_checksum(frame) ==> !(checksum_field(frame) <= i < checksum_field(frame) + 2),
    ensures
        finalized(frame).len() == frame.len(),
        finalized(frame)[i] == frame[i],
{
}

/// The ones' complement sum of the words of `b` from `start` on.
fn sum_words(b: &[u8], start: usize) -> (r: u32)
    requires
        start <= b@.len(),
    ensures
        r == ones_fold(word_sum(b@.skip(start as int))),
{
    let mut i: usize = start;
    let mut acc: u32 = 0;
    let ghost total: nat = 0;
    while i < b.len()
        invariant
            start <= i <= b@.len(),
            acc == ones_fold(total),
            acc <= 65535,
            total + word_sum(b@.skip(i as int)) == word_sum(b@.skip(start as int)),
        decreases b@.len() - i,
    {
        let rest: usize = b.len() - i;
        let low: u32 =
            if rest >= 2 {
                b[i + 1] as u32
            } else {
                0
            };
        let word: u32 = 256 * (b[i] as u32) + low;
        proof {
            fold_step(total, word as nat);
            if rest >= 2 {
                assert(b@.skip(i as int).skip(2) =~= b@.skip(i + 2));
            } else {
                assert(b@.skip(i + 1) =~= Seq::empty());
            }
            total = total + word as nat;
        }
        acc = acc + word;
        if acc > 65535 {
            acc = acc - 65535;
        }
        i =
        if rest >= 2 {
            i + 2
        } else {
            i + 1
        };
    }
    assert(b@.skip(i as int) =~= Seq::empty());
    acc
}

/// Completes the checksum of the frame `buf`, which starts with its virtio header: the checksum
/// over the segment goes into the field that the header names. Without the flag in the header,
/// or where the frame is too short for the field, nothing changes.
pub fn finalize_checksum(buf: &mut [u8])
    ensures
        final(buf)@ == finalized(old(buf)@),
{
    let ghost frame = buf@;
    if buf.len() < VNET_HDR_LEN {
        return;
    }
    if buf[0] & VIRTIO_NET_HDR_F_NEEDS_CSUM == 0 {
        return;
    }
    let start: usize = VNET_HDR_LEN + get_le16(buf, VNET_CSUM_START_OFFSET) as usize;
    let field: usize = start + get_le16(buf, VNET_CSUM_OFFSET_OFFSET) as usize;
    if field + 2 > buf.len() {
        return;
    }
    let sum: u32 = 65535 - sum_words(buf, start);
    buf[field] = (sum / 256) as u8;
    buf[field + 1] = (sum % 256) as u8;
}

} // verus!
