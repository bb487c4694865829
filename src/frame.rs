//! The 36-byte outbound frame: a fixed marker, one channel's 120 cells packed
//! one bit each from byte 1 on, a 7-bit sequence counter and an XOR checksum.

use vstd::prelude::*;

verus! {

/// One outbound frame.
pub type Pack = [u8; 36];

/// Bytes in a frame.
pub const FRAME_LEN: usize = 36;

/// Value of a frame's first byte.
pub const FRAME_MARKER: u8 = 129;

/// Position of the sequence counter.
pub const SEQ_INDEX: usize = 34;

/// Position of the checksum, the last byte.
pub const CHECKSUM_INDEX: usize = 35;

/// Cells that one channel carries.
pub const CHANNEL_CELLS: usize = 120;

/// The XOR of all bytes of `s`, folded from the front.
pub open spec fn xor_all(s: Seq<u8>) -> u8
    decreases s.len(),
{
    if s.len() == 0 {
        0
    } else {
        xor_all(s.drop_last()) ^ s.last()
    }
}

/// Bit `k` (0 is the least significant) of `b`.
pub open spec fn bit_at(b: u8, k: u8) -> bool {
    (b >> k) & 1u8 == 1u8
}

/// Bit `i` of a byte sequence: bit `i % 8` of byte `i / 8`.
pub open spec fn frame_bit(p: Seq<u8>, i: int) -> bool {
    bit_at(p[i / 8], (i % 8) as u8)
}

/// Bit position in a frame of a channel's local cell `i`: bit `i` of the
/// packed region that starts at byte 1, least significant bit first.
pub open spec fn cell_bit(i: int) -> int {
    8 + i
}

/// Whether bit `p` of a frame carries a cell.
pub open spec fn is_cell_bit(p: int) -> bool {
    8 <= p < 8 + CHANNEL_CELLS
}

/// The local cell that a cell-carrying bit `p` holds.
pub open spec fn bit_cell(p: int) -> int {
    p - 8
}

/// The counter that follows `s`: one more, and 0 after 127.
pub open spec fn next_seq(s: u8) -> u8 {
    if s >= 127 {
        0
    } else {
        (s + 1) as u8
    }
}

/// `p` with its marker set, its counter advanced, and its checksum computed
/// over the 35 bytes that precede it.
pub open spec fn prepared(p: Seq<u8>) -> Seq<u8> {
    let q = p.update(0, FRAME_MARKER).update(SEQ_INDEX as int, next_seq(p[SEQ_INDEX as int]));
    q.update(CHECKSUM_INDEX as int, xor_all(q.take(CHECKSUM_INDEX as int)))
}

/// `r` is the frame that carries `local`, a channel's 120 cells, after a frame
/// whose counter was `prev`.
pub open spec fn is_frame_for(local: Seq<bool>, prev: u8, r: Seq<u8>) -> bool {
    &&& r.len() == FRAME_LEN
    &&& r[0] == FRAME_MARKER
    &&& forall|p: int|
        8 <= p < 8 * SEQ_INDEX ==> #[trigger] frame_bit(r, p) == (is_cell_bit(p) && local[bit_cell(p)])
    &&& r[SEQ_INDEX as int] == next_seq(prev)
    &&& r[CHECKSUM_INDEX as int] == xor_all(r.take(CHECKSUM_INDEX as int))
}

proof fn lemma_xor_zero(x: u8)
    ensures
        x ^ 0u8 == x,
{
    assert(x ^ 0u8 == x) by (bit_vector);
}

proof fn lemma_bits_of_update(b: u8, k: u8)
    requires
        k < 8,
    ensures
        forall|j: u8| j < 8 ==> #[trigger] bit_at(b | (1u8 << k), j) == (j == k || bit_at(b, j)),
        forall|j: u8| j < 8 ==> #[trigger] bit_at(b & !(1u8 << k), j) == (j != k && bit_at(b, j)),
        forall|j: u8| j < 8 ==> !#[trigger] bit_at(0u8, j),
{
    assert forall|j: u8| j < 8 implies #[trigger] bit_at(b | (1u8 << k), j) == (j == k || bit_at(
        b,
        j,
    )) by {
        assert((((b | (1u8 << k)) >> j) & 1u8 == 1u8) == (j == k || (b >> j) & 1u8 == 1u8))
            by (bit_vector)
            requires
                k < 8,
                j < 8,
        ;
    }
    assert forall|j: u8| j < 8 implies #[trigger] bit_at(b & !(1u8 << k), j) == (j != k && bit_at(
        b,
        j,
    )) by {
        assert((((b & !(1u8 << k)) >> j) & 1u8 == 1u8) == (j != k && (b >> j) & 1u8 == 1u8))
            by (bit_vector)
            requires
                k < 8,
                j < 8,
        ;
    }
    assert(forall|j: u8| j < 8 ==> (0u8 >> j) & 1u8 != 1u8) by (bit_vector);
}

/// XOR of every byte of `pack`.
pub fn checksum(pack: &[u8]) -> (r: u8)
    ensures
        r == xor_all(pack@),
{
    let mut val: u8 = 0;
    let mut i: usize = 0;
    while i < pack.len()
        invariant
            i <= pack@.len(),
            val == xor_all(pack@.subrange(0, i as int)),
        decreases pack@.len() - i,
    {
        assert(pack@.subrange(0, i + 1).drop_last() =~= pack@.subrange(0, i as int));
        val = val ^ pack[i];
        i += 1;
    }
    assert(pack@.subrange(0, i as int) =~= pack@);
    val
}

/// Sets bit `index % 8` of byte `index / 8` to `value`, and nothing else.
pub fn set(pack: &mut Pack, index: usize, value: bool)
    requires
        index < 8 * FRAME_LEN,
    ensures
        final(pack)@ == old(pack)@.update((index / 8) as int, final(pack)@[(index / 8) as int]),
        forall|k: u8|
            k < 8 ==> #[trigger] bit_at(final(pack)@[(index / 8) as int], k) == if k == (index
                % 8) as u8 {
                value
            } else {
                bit_at(old(pack)@[(index / 8) as int], k)
            },
{
    let byte_index = index / 8;
    let bit_index = (index % 8) as u8;
    let old_byte = pack[byte_index];
    proof {
        lemma_bits_of_update(old_byte, bit_index);
    }
    let new_byte = if value {
        old_byte | (1u8 << bit_index)
    } else {
        old_byte & !(1u8 << bit_index)
    };
    pack[byte_index] = new_byte;
    assert(pack@ =~= old(pack)@.update(byte_index as int, new_byte));
}

/// Finishes a frame: writes the marker, advances the counter (127 wraps to
/// 0), and writes as the last byte the XOR of the 35 bytes before it.
pub fn prepare(pack: Pack) -> (r: Pack)
    ensures
        r@ == prepared(pack@),
{
    let mut pack = pack;
    let ghost orig = pack@;
    pack[0] = FRAME_MARKER;
    let seq = pack[SEQ_INDEX];
    pack[SEQ_INDEX] = if seq >= 127 {
        0
    } else {
        seq + 1
    };
    pack[CHECKSUM_INDEX] = 0;
    let ghost q = pack@;
    let sum = checksum(pack.as_slice());
    proof {
        assert(q.drop_last() =~= q.take(CHECKSUM_INDEX as int));
        lemma_xor_zero(xor_all(q.drop_last()));
    }
    pack[CHECKSUM_INDEX] = sum;
    proof {
        let q2 = orig.update(0, FRAME_MARKER).update(SEQ_INDEX as int, next_seq(orig[SEQ_INDEX as int]));
        assert(q.take(CHECKSUM_INDEX as int) =~= q2.take(CHECKSUM_INDEX as int));
    }
    assert(pack@ =~= prepared(orig));
    pack
}

/// Bit positions of local cells and cell-carrying bits correspond one to one.
proof fn lemma_cell_bit(i: int)
    requires
        0 <= i < CHANNEL_CELLS,
    ensures
        is_cell_bit(cell_bit(i)),
        bit_cell(cell_bit(i)) == i,
        forall|p: int| is_cell_bit(p) && bit_cell(p) == i ==> p == cell_bit(i),
        cell_bit(i) < 8 * SEQ_INDEX,
{
}

/// The frame that carries `local`, one channel's 120 cells (`true` for an
/// active cell), after a frame whose counter was `prev`.
pub fn encode_frame(local: &[bool], prev: u8) -> (r: Pack)
    requires
        local@.len() == CHANNEL_CELLS,
    ensures
        is_frame_for(local@, prev, r@),
{
    let mut pack: Pack = [0u8; 36];
    pack[SEQ_INDEX] = prev;
    proof {
        lemma_bits_of_update(0, 0);
        assert forall|p: int| 8 <= p < 8 * SEQ_INDEX implies !#[trigger] frame_bit(pack@, p) by {
            assert(pack@[p / 8] == 0);
        }
    }
    let mut i: usize = 0;
    while i < CHANNEL_CELLS
        invariant
            i <= CHANNEL_CELLS,
            local@.len() == CHANNEL_CELLS,
            pack@.len() == FRAME_LEN,
            pack@[0] == 0,
            pack@[SEQ_INDEX as int] == prev,
            pack@[CHECKSUM_INDEX as int] == 0,
            forall|p: int|
                8 <= p < 8 * SEQ_INDEX ==> #[trigger] frame_bit(pack@, p) == (is_cell_bit(p)
                    && bit_cell(p) < i && local@[bit_cell(p)]),
        decreases CHANNEL_CELLS - i,
    {
        let ghost before = pack@;
        let bit = 8 + i;
        proof {
            lemma_cell_bit(i as int);
        }
        set(&mut pack, bit, local[i]);
        assert forall|p: int| 8 <= p < 8 * SEQ_INDEX implies #[trigger] frame_bit(pack@, p) == (
        is_cell_bit(p) && bit_cell(p) < i + 1 && local@[bit_cell(p)]) by {
            let k = (p % 8) as u8;
            if p / 8 != bit / 8 {
                assert(pack@[p / 8] == before[p / 8]);
                assert(p != bit);
                assert(frame_bit(pack@, p) == frame_bit(before, p));
            } else {
                assert(bit_at(pack@[(bit / 8) as int], k) == if k == (bit % 8) as u8 {
                    local@[i as int]
                } else {
                    bit_at(before[(bit / 8) as int], k)
                });
                if p == bit {
                    assert(k == (bit % 8) as u8);
                } else {
                    assert(p % 8 != bit % 8);
                    assert(k != (bit % 8) as u8);
                    assert(frame_bit(pack@, p) == frame_bit(before, p));
                }
            }
        }
        i += 1;
    }
    let ghost filled = pack@;
    let r = prepare(pack);
    proof {
        assert forall|p: int| 8 <= p < 8 * SEQ_INDEX implies #[trigger] frame_bit(r@, p) == (
        is_cell_bit(p) && local@[bit_cell(p)]) by {
            assert(r@[p / 8] == filled[p / 8]);
            assert(frame_bit(filled, p) == frame_bit(r@, p));
        }
        let q = filled.update(0, FRAME_MARKER).update(SEQ_INDEX as int, next_seq(prev));
        assert(r@.take(CHECKSUM_INDEX as int) =~= q.take(CHECKSUM_INDEX as int));
    }
    r
}

/// XOR-ing in a replacement byte: the checksum of `s` with byte `i` replaced
/// by `b` is the old checksum with `s[i]` taken out and `b` put in.
pub proof fn lemma_xor_update(s: Seq<u8>, i: int, b: u8)
    requires
        0 <= i < s.len(),
    ensures
        xor_all(s.update(i, b)) == xor_all(s) ^ s[i] ^ b,
    decreases s.len(),
{
    let t = s.update(i, b);
    let a = xor_all(s.drop_last());
    let l = s.last();
    if i == s.len() - 1 {
        assert(t.drop_last() =~= s.drop_last());
        assert(a ^ b == (a ^ l) ^ l ^ b) by (bit_vector);
    } else {
        assert(t.drop_last() =~= s.drop_last().update(i, b));
        lemma_xor_update(s.drop_last(), i, b);
        let x = s[i];
        assert((a ^ x ^ b) ^ l == (a ^ l) ^ x ^ b) by (bit_vector);
    }
}

/// The checksum catches every corruption of a single byte: replacing any one
/// byte by a different value changes the XOR of the whole sequence.
pub proof fn lemma_checksum_detects_byte_change(s: Seq<u8>, i: int, b: u8)
    requires
        0 <= i < s.len(),
        b != s[i],
    ensures
        xor_all(s.update(i, b)) != xor_all(s),
{
    lemma_xor_update(s, i, b);
    let x = xor_all(s);
    let c = s[i];
    assert(b != c ==> (x ^ c ^ b) != x) by (bit_vector);
}

/// The counter of consecutive frames steps by exactly one modulo 128, so two
/// consecutive frames never share a counter value.
pub proof fn lemma_sequence_steps(s: u8)
    requires
        s < 128,
    ensures
        next_seq(s) == (s + 1) % 128,
        next_seq(s) < 128,
        next_seq(s) != s,
{
}

} // verus!
