//! The scoop-swap transform between the two plot layouts.
//!
//! A plot of `n` nonces is a run of 4096 scoop blocks of `n * SCOOP_SIZE`
//! bytes each; block `s` holds scoop `s` of every nonce. The transform pairs
//! block `s` with its mirrored block `4095 - s` and exchanges, for every
//! scoop record, the second hash half (the last `HASH_SIZE` bytes of the
//! `SCOOP_SIZE`-byte record) between the two blocks; the first half of every
//! record stays in place.

use vstd::prelude::*;
use vstd::arithmetic::div_mod::{lemma_fundamental_div_mod, lemma_fundamental_div_mod_converse};
use crate::geometry::{HASH_SIZE, NONCE_SIZE, SCOOPS_IN_NONCE, SCOOP_PAIRS, SCOOP_SIZE};

verus! {

/// Byte length of one scoop block: one scoop record for every nonce.
pub open spec fn spec_block_size(nonces: int) -> int {
    nonces * (SCOOP_SIZE as int)
}

/// The position that byte `i` of the converted image is taken from: itself
/// for a first hash half, the matching byte of the mirrored scoop block for
/// a second hash half.
pub open spec fn partner_index(i: int, nonces: int) -> int {
    let bs = spec_block_size(nonces);
    let s = i / bs;
    let w = i % bs;
    if w % (SCOOP_SIZE as int) < HASH_SIZE as int {
        i
    } else {
        ((SCOOPS_IN_NONCE as int) - 1 - s) * bs + w
    }
}

/// The converted image of a whole plot.
pub open spec fn poc_swapped(data: Seq<u8>, nonces: int) -> Seq<u8> {
    Seq::new(data.len(), |i: int| data[partner_index(i, nonces)])
}

/// Decomposes an in-range byte position into scoop block and offset within
/// the block.
proof fn lemma_index_decompose(i: int, nonces: int)
    requires
        nonces >= 1,
        0 <= i < nonces * (NONCE_SIZE as int),
    ensures
        0 <= i % spec_block_size(nonces) < spec_block_size(nonces),
        0 <= i / spec_block_size(nonces) < SCOOPS_IN_NONCE,
        i == (i / spec_block_size(nonces)) * spec_block_size(nonces) + i % spec_block_size(
            nonces,
        ),
{
    let bs = spec_block_size(nonces);
    assert(bs >= 64) by (nonlinear_arith)
        requires
            nonces >= 1,
            bs == nonces * (SCOOP_SIZE as int),
    ;
    lemma_fundamental_div_mod(i, bs);
    assert(0 <= i % bs < bs) by (nonlinear_arith)
        requires
            bs >= 1,
            i >= 0,
    ;
    assert(nonces * (NONCE_SIZE as int) == 4096 * bs) by (nonlinear_arith)
        requires
            bs == nonces * (SCOOP_SIZE as int),
    ;
    assert(0 <= i / bs < 4096) by (nonlinear_arith)
        requires
            bs >= 1,
            0 <= i < 4096 * bs,
            i == bs * (i / bs) + i % bs,
            0 <= i % bs < bs,
    ;
}

/// A position built from a block number and an in-block offset decomposes
/// back into exactly those parts.
proof fn lemma_block_index(s: int, k: int, nonces: int)
    requires
        nonces >= 1,
        0 <= s < SCOOPS_IN_NONCE,
        0 <= k < spec_block_size(nonces),
    ensures
        (s * spec_block_size(nonces) + k) / spec_block_size(nonces) == s,
        (s * spec_block_size(nonces) + k) % spec_block_size(nonces) == k,
        0 <= s * spec_block_size(nonces) + k < nonces * (NONCE_SIZE as int),
{
    let bs = spec_block_size(nonces);
    assert(bs >= 64) by (nonlinear_arith)
        requires
            nonces >= 1,
            bs == nonces * (SCOOP_SIZE as int),
    ;
    lemma_fundamental_div_mod_converse(s * bs + k, bs, s, k);
    assert(0 <= s * bs + k && s * bs + k < 4096 * bs) by (nonlinear_arith)
        requires
            bs >= 1,
            0 <= s < 4096,
            0 <= k < bs,
    ;
    assert(nonces * (NONCE_SIZE as int) == 4096 * bs) by (nonlinear_arith)
        requires
            bs == nonces * (SCOOP_SIZE as int),
    ;
}

/// The partner of an in-range position is in range, and taking the partner
/// twice leads back: the byte relocation is an involution.
pub proof fn lemma_partner_involutive(i: int, nonces: int)
    requires
        nonces >= 1,
        0 <= i < nonces * (NONCE_SIZE as int),
    ensures
        0 <= partner_index(i, nonces) < nonces * (NONCE_SIZE as int),
        partner_index(partner_index(i, nonces), nonces) == i,
{
    let bs = spec_block_size(nonces);
    let s = i / bs;
    let w = i % bs;
    lemma_index_decompose(i, nonces);
    if w % (SCOOP_SIZE as int) < HASH_SIZE as int {
    } else {
        let p = (4095 - s) * bs + w;
        lemma_block_index(4095 - s, w, nonces);
        assert(p / bs == 4095 - s);
        assert(p % bs == w);
        assert(partner_index(p, nonces) == (4095 - (4095 - s)) * bs + w);
        assert(s * bs + w == i);
    }
}

/// Converting twice restores every byte: the transform is an involution.
pub proof fn lemma_poc_swapped_involutive(data: Seq<u8>, nonces: int)
    requires
        nonces >= 0,
        data.len() == nonces * (NONCE_SIZE as int),
    ensures
        poc_swapped(poc_swapped(data, nonces), nonces) == data,
{
    let once = poc_swapped(data, nonces);
    let twice = poc_swapped(once, nonces);
    assert forall|i: int| 0 <= i < data.len() implies twice[i] == data[i] by {
        assert(nonces >= 1) by (nonlinear_arith)
            requires
                nonces >= 0,
                nonces * (NONCE_SIZE as int) > i >= 0,
        ;
        lemma_partner_involutive(i, nonces);
        lemma_partner_involutive(partner_index(i, nonces), nonces);
    }
    assert(twice =~= data);
}

/// The transform keeps the first hash half of every scoop record in place.
pub proof fn lemma_poc_swapped_fixes_first_half(data: Seq<u8>, nonces: int, i: int)
    requires
        nonces >= 1,
        data.len() == nonces * (NONCE_SIZE as int),
        0 <= i < data.len(),
        i % spec_block_size(nonces) % (SCOOP_SIZE as int) < HASH_SIZE as int,
    ensures
        poc_swapped(data, nonces)[i] == data[i],
{
}

/// The number of the conversion step that touches byte position `i`: the
/// scoop block it lies in, counted from whichever end of the file is
/// nearer.
pub open spec fn pair_of(i: int, nonces: int) -> int {
    let s = i / spec_block_size(nonces);
    if s < SCOOP_PAIRS as int {
        s
    } else {
        (SCOOPS_IN_NONCE as int) - 1 - s
    }
}

/// A position lies in scoop block `s2` exactly when it lies in that block's
/// byte window.
proof fn lemma_window(i: int, s2: int, nonces: int)
    requires
        nonces >= 1,
        0 <= i < nonces * (NONCE_SIZE as int),
        0 <= s2 < SCOOPS_IN_NONCE,
    ensures
        (i / spec_block_size(nonces) == s2) <==> (s2 * spec_block_size(nonces) <= i < (s2 + 1)
            * spec_block_size(nonces)),
{
    let bs = spec_block_size(nonces);
    lemma_index_decompose(i, nonces);
    let si = i / bs;
    let w = i % bs;
    if si == s2 {
        assert(s2 * bs <= i < (s2 + 1) * bs) by (nonlinear_arith)
            requires
                i == si * bs + w,
                si == s2,
                0 <= w < bs,
        ;
    }
    if s2 * bs <= i < (s2 + 1) * bs {
        let k = i - s2 * bs;
        assert(0 <= k < bs) by (nonlinear_arith)
            requires
                k == i - s2 * bs,
                s2 * bs <= i < (s2 + 1) * bs,
        ;
        lemma_block_index(s2, k, nonces);
    }
}

/// Exchanges the second hash half of every scoop record between two equal
/// blocks, as one conversion step does with a forward block and its
/// mirrored partner. Bytes in a first hash half stay where they are.
pub fn swap_second_halves(a: &mut Vec<u8>, b: &mut Vec<u8>)
    requires
        old(a)@.len() == old(b)@.len(),
    ensures
        final(a)@.len() == old(a)@.len(),
        final(b)@.len() == old(b)@.len(),
        forall|j: int|
            0 <= j < old(a)@.len() ==> final(a)@[j] == if j % (SCOOP_SIZE as int) >= HASH_SIZE
                as int {
                old(b)@[j]
            } else {
                old(a)@[j]
            },
        forall|j: int|
            0 <= j < old(b)@.len() ==> final(b)@[j] == if j % (SCOOP_SIZE as int) >= HASH_SIZE
                as int {
                old(a)@[j]
            } else {
                old(b)@[j]
            },
{
    let len = a.len();
    let mut j: usize = 0;
    while j < len
        invariant
            j <= len,
            a@.len() == len,
            b@.len() == len,
            old(a)@.len() == len,
            old(b)@.len() == len,
            forall|k: int|
                0 <= k < j ==> a@[k] == if k % (SCOOP_SIZE as int) >= HASH_SIZE as int {
                    old(b)@[k]
                } else {
                    old(a)@[k]
                },
            forall|k: int|
                0 <= k < j ==> b@[k] == if k % (SCOOP_SIZE as int) >= HASH_SIZE as int {
                    old(a)@[k]
                } else {
                    old(b)@[k]
                },
            forall|k: int| j <= k < len ==> a@[k] == old(a)@[k],
            forall|k: int| j <= k < len ==> b@[k] == old(b)@[k],
        decreases len - j,
    {
        if j % (SCOOP_SIZE as usize) >= (HASH_SIZE as usize) {
            let t = a[j];
            let s = b[j];
            a.set(j, s);
            b.set(j, t);
        }
        j = j + 1;
    }
}

/// Copies `count` bytes starting at `off` out of `data` into a fresh
/// buffer, as one conversion step reads one scoop block.
pub fn read_block(data: &Vec<u8>, off: usize, count: usize) -> (r: Vec<u8>)
    requires
        off + count <= data@.len(),
    ensures
        r@ == data@.subrange(off as int, off + count),
{
    let dlen = data.len();
    let mut r: Vec<u8> = Vec::new();
    let mut k: usize = 0;
    while k < count
        invariant
            k <= count,
            off + count <= dlen == data@.len(),
            r@ =~= data@.subrange(off as int, off + k),
        decreases count - k,
    {
        r.push(data[off + k]);
        proof {
            assert(r@ =~= data@.subrange(off as int, off + k + 1));
        }
        k = k + 1;
    }
    r
}

/// Writes `block` back into `data` at offset `off`, as one conversion step
/// writes one scoop block; every byte outside the window stays.
pub fn write_block(data: &mut Vec<u8>, off: usize, block: &Vec<u8>)
    requires
        off + block@.len() <= old(data)@.len(),
    ensures
        final(data)@.len() == old(data)@.len(),
        forall|i: int|
            0 <= i < old(data)@.len() ==> final(data)@[i] == if off <= i < off + block@.len() {
                block@[i - off]
            } else {
                old(data)@[i]
            },
{
    let count = block.len();
    let dlen = data.len();
    let mut k: usize = 0;
    while k < count
        invariant
            k <= count,
            count == block@.len(),
            off + count <= dlen == data@.len(),
            data@.len() == old(data)@.len(),
            forall|i: int| off <= i < off + k ==> data@[i] == block@[i - off],
            forall|i: int|
                0 <= i < data@.len() && !(off <= i < off + k) ==> data@[i] == old(data)@[i],
        decreases count - k,
    {
        data.set(off + k, block[k]);
        k = k + 1;
    }
}

/// Converts a whole plot image in place: for each of the `SCOOP_PAIRS`
/// scoop pairs, reads the forward block and its mirrored partner, exchanges
/// the second hash halves, and writes both blocks back — the mirrored block
/// first, as the streaming loop does.
pub fn convert_image(data: &mut Vec<u8>, nonces: usize)
    requires
        old(data)@.len() == nonces * (NONCE_SIZE as int),
    ensures
        final(data)@ == poc_swapped(old(data)@, nonces as int),
{
    let ghost od = old(data)@;
    if nonces == 0 {
        proof {
            assert(data@ =~= poc_swapped(od, nonces as int));
        }
        return;
    }
    let len: usize = data.len();
    let bs: usize = {
        proof {
            assert(nonces * (SCOOP_SIZE as int) <= nonces * (NONCE_SIZE as int))
                by (nonlinear_arith)
                requires
                    nonces >= 0,
            ;
        }
        nonces * (SCOOP_SIZE as usize)
    };
    proof {
        assert(len == 4096 * bs && bs == spec_block_size(nonces as int)) by (nonlinear_arith)
            requires
                len == nonces * (NONCE_SIZE as int),
                bs == nonces * (SCOOP_SIZE as int),
        ;
        assert forall|i: int| 0 <= i < len implies pair_of(i, nonces as int) >= 0 by {
            lemma_index_decompose(i, nonces as int);
        }
    }
    let mut s: usize = 0;
    while s < (SCOOP_PAIRS as usize)
        invariant
            s <= SCOOP_PAIRS,
            1 <= nonces,
            bs == spec_block_size(nonces as int),
            len == 4096 * bs,
            data@.len() == len,
            od.len() == len,
            od == old(data)@,
            len == nonces * (NONCE_SIZE as int),
            forall|i: int|
                0 <= i < len ==> data@[i] == if pair_of(i, nonces as int) < s {
                    od[partner_index(i, nonces as int)]
                } else {
                    od[i]
                },
        decreases SCOOP_PAIRS - s,
    {
        proof {
            assert(s * bs <= (s + 1) * bs <= 2048 * bs <= 4096 * bs) by (nonlinear_arith)
                requires
                    s + 1 <= 2048,
                    bs >= 0,
            ;
        }
        let fwd: usize = s * bs;
        let mir: usize = len - (s + 1) * bs;
        proof {
            assert(fwd == s * bs && fwd + bs == (s + 1) * bs && mir == (4095 - s as int) * bs
                && mir + bs == (4096 - s as int) * bs && fwd + bs <= mir) by (nonlinear_arith)
                requires
                    fwd == s * bs,
                    mir == len - (s + 1) * bs,
                    len == 4096 * bs,
                    0 <= s <= 2047,
                    bs >= 64,
            ;
        }
        let mut a = read_block(data, fwd, bs);
        let mut b = read_block(data, mir, bs);
        swap_second_halves(&mut a, &mut b);
        let ghost d_before = data@;
        let ghost sa = a@;
        let ghost sb = b@;
        write_block(data, mir, &b);
        write_block(data, fwd, &a);
        proof {
            let n = nonces as int;
            let si = s as int;
            assert forall|i: int| 0 <= i < len implies data@[i] == if pair_of(i, n) < si + 1 {
                od[partner_index(i, n)]
            } else {
                od[i]
            } by {
                lemma_index_decompose(i, n);
                lemma_window(i, si, n);
                lemma_window(i, 4095 - si, n);
                let blk = i / (bs as int);
                let w = i % (bs as int);
                if blk == si {
                    // forward block of this step: i sits at offset w of the
                    // window starting at fwd
                    assert(fwd <= i < fwd + bs);
                    assert(i - fwd == w);
                    assert(data@[i] == sa[w]);
                    assert(d_before[fwd + w] == od[fwd + w]);
                    assert(d_before[mir + w] == od[mir + w]) by {
                        lemma_block_index(4095 - si, w, n);
                    }
                    assert(partner_index(i, n) == if w % 64 >= 32 {
                        mir + w
                    } else {
                        i
                    });
                    assert(pair_of(i, n) == si);
                } else if blk == 4095 - si {
                    assert(mir <= i < mir + bs);
                    assert(!(fwd <= i < fwd + bs));
                    assert(i - mir == w) by {
                        lemma_block_index(4095 - si, i - mir, n);
                    }
                    assert(data@[i] == sb[w]);
                    assert(d_before[mir + w] == od[mir + w]);
                    assert(d_before[fwd + w] == od[fwd + w]) by {
                        lemma_block_index(si, w, n);
                    }
                    assert(partner_index(i, n) == if w % 64 >= 32 {
                        fwd + w
                    } else {
                        i
                    }) by {
                        assert((4095 - (4095 - si)) * bs == si * bs) by (nonlinear_arith);
                    }
                    assert(pair_of(i, n) == si);
                } else {
                    assert(!(fwd <= i < fwd + bs));
                    assert(!(mir <= i < mir + bs));
                    assert(data@[i] == d_before[i]);
                    assert(pair_of(i, n) != si);
                }
            }
        }
        s = s + 1;
    }
    proof {
        let n = nonces as int;
        assert forall|i: int| 0 <= i < len implies data@[i] == od[partner_index(i, n)] by {
            lemma_index_decompose(i, n);
            assert(pair_of(i, n) < 2048);
        }
        assert(data@ =~= poc_swapped(od, n));
    }
}

/// Converts a plot image into a fresh buffer, reading the source through a
/// shared borrow: the source bytes cannot be touched.
pub fn convert_copy(data: &Vec<u8>, nonces: usize) -> (r: Vec<u8>)
    requires
        data@.len() == nonces * (NONCE_SIZE as int),
    ensures
        r@ == poc_swapped(data@, nonces as int),
{
    let mut out = read_block(data, 0, data.len());
    proof {
        assert(out@ =~= data@);
    }
    convert_image(&mut out, nonces);
    out
}

} // verus!
