//! Multiword slot masks: slot `t` is bit `t % 32` of word `t / 32`.

use vstd::prelude::*;

verus! {

/// Whether bit `b` of `x` is set.
pub open spec fn bit(x: u32, b: u32) -> bool {
    (x >> b) & 1u32 == 1u32
}

/// Whether the mask `ws` names slot `t`.
pub open spec fn has_slot(ws: Seq<u32>, t: int) -> bool {
    0 <= t && t / 32 < ws.len() && bit(ws[t / 32], (t % 32) as u32)
}

/// `ws` with the bit of slot `t` set; a slot beyond the mask is ignored.
pub open spec fn with_slot(ws: Seq<u32>, t: int) -> Seq<u32> {
    if 0 <= t && t / 32 < ws.len() {
        ws.update(t / 32, ws[t / 32] | (1u32 << ((t % 32) as u32)))
    } else {
        ws
    }
}

/// The mask of `words` words naming exactly the slots listed in `q`.
pub open spec fn mask_of(q: Seq<u8>, words: nat) -> Seq<u32>
    decreases q.len(),
{
    if q.len() == 0 {
        Seq::new(words, |i: int| 0u32)
    } else {
        with_slot(mask_of(q.drop_last(), words), q.last() as int)
    }
}

/// Number of set bits of `x` at positions `from <= c < to`.
pub open spec fn bits_in(x: u32, from: int, to: int) -> nat
    decreases to - from,
{
    if to <= from {
        0
    } else {
        bits_in(x, from, to - 1) + if bit(x, (to - 1) as u32) { 1nat } else { 0nat }
    }
}

/// Number of set bits in the first `w` words of `ws`.
pub open spec fn mask_count(ws: Seq<u32>, w: int) -> nat
    decreases w,
{
    if w <= 0 {
        0
    } else {
        mask_count(ws, w - 1) + bits_in(ws[w - 1], 0, 32)
    }
}

/// First position of word `w` that names a slot at or beyond `len`.
pub open spec fn first_stray(len: int, w: int) -> int {
    if len - 32 * w <= 0 {
        0
    } else if len - 32 * w >= 32 {
        32
    } else {
        len - 32 * w
    }
}

/// Number of slots at or beyond `len` named by the first `w` words of `ws`.
pub open spec fn stray_count(ws: Seq<u32>, len: int, w: int) -> nat
    decreases w,
{
    if w <= 0 {
        0
    } else {
        stray_count(ws, len, w - 1) + bits_in(ws[w - 1], first_stray(len, w - 1), 32)
    }
}

pub open spec fn saturate(x: nat) -> u32 {
    if x > u32::MAX { u32::MAX } else { x as u32 }
}

proof fn lemma_or_bit(x: u32, b: u32, c: u32)
    requires
        b < 32,
        c < 32,
    ensures
        bit(x | (1u32 << b), c) == (c == b || bit(x, c)),
{
    assert(((x | (1u32 << b)) >> c) & 1u32 == 1u32 <==> (c == b || (x >> c) & 1u32 == 1u32)) by (bit_vector)
        requires
            b < 32,
            c < 32,
    ;
}

proof fn lemma_zero_bit(c: u32)
    requires
        c < 32,
    ensures
        !bit(0u32, c),
{
    assert((0u32 >> c) & 1u32 != 1u32) by (bit_vector)
        requires
            c < 32,
    ;
}

proof fn lemma_bit_is_one(x: u32, c: u32)
    requires
        c < 32,
    ensures
        (x >> c) & 1u32 <= 1,
        bit(x, c) <==> (x >> c) & 1u32 == 1,
{
    assert((x >> c) & 1u32 <= 1) by (bit_vector);
}

pub proof fn lemma_mask_len(q: Seq<u8>, words: nat)
    ensures
        mask_of(q, words).len() == words,
    decreases q.len(),
{
    if q.len() > 0 {
        lemma_mask_len(q.drop_last(), words);
    }
}

/// A mask built from a list names exactly the listed slots that fit in it.
pub proof fn lemma_mask_of(q: Seq<u8>, words: nat, t: int)
    requires
        0 <= t < 32 * words,
    ensures
        has_slot(mask_of(q, words), t) <==> (t < 256 && q.contains(t as u8)),
    decreases q.len(),
{
    lemma_mask_len(q, words);
    if q.len() == 0 {
        lemma_zero_bit((t % 32) as u32);
    } else {
        let p = q.drop_last();
        let m = mask_of(p, words);
        lemma_mask_len(p, words);
        lemma_mask_of(p, words, t);
        let s = q.last() as int;
        if s / 32 < words {
            lemma_or_bit(m[s / 32], (s % 32) as u32, (t % 32) as u32);
        }
        if t < 256 && q.contains(t as u8) {
            let j = choose|j: int| 0 <= j < q.len() && q[j] == t as u8;
            if j < q.len() - 1 {
                assert(p[j] == t as u8);
            }
        }
        if t < 256 && p.contains(t as u8) {
            let j = choose|j: int| 0 <= j < p.len() && p[j] == t as u8;
            assert(q[j] == t as u8);
        }
    }
}

/// Set the bit of slot `t` in `ws` (ignored beyond the mask).
pub fn set_slot<const W: usize>(ws: &mut [u32; W], t: usize)
    ensures
        final(ws)@ == with_slot(old(ws)@, t as int),
{
    let w = t / 32;
    if w < W {
        let b = (t % 32) as u32;
        ws[w] = ws[w] | (1u32 << b);
        assert(final(ws)@ =~= with_slot(old(ws)@, t as int));
    }
}

/// Number of set bits of `x` at positions `from..32`.
pub fn count_bits_from(x: u32, from: u32) -> (r: u32)
    requires
        from <= 32,
    ensures
        r == bits_in(x, from as int, 32),
        r <= 32,
{
    let mut c: u32 = from;
    let mut r: u32 = 0;
    while c < 32
        invariant
            from <= c <= 32,
            r == bits_in(x, from as int, c as int),
            r <= c - from,
        decreases 32 - c,
    {
        proof { lemma_bit_is_one(x, c); }
        r = r + ((x >> c) & 1u32);
        c = c + 1;
    }
    r
}


/// Whether two masks hold the same words.
pub fn masks_equal<const W: usize>(a: &[u32; W], b: &[u32; W]) -> (r: bool)
    ensures
        r == (a@ == b@),
{
    let mut i: usize = 0;
    while i < W
        invariant
            i <= W,
            forall|k: int| 0 <= k < i ==> a@[k] == b@[k],
        decreases W - i,
    {
        if a[i] != b[i] {
            return false;
        }
        i += 1;
    }
    assert(a@ =~= b@);
    true
}

/// Number of set bits of a mask, saturated at `u32::MAX`.
pub fn mask_total<const W: usize>(ws: &[u32; W]) -> (r: u32)
    ensures
        r == saturate(mask_count(ws@, W as int)),
{
    let mut total: u32 = 0;
    let mut w: usize = 0;
    while w < W
        invariant
            w <= W,
            total == saturate(mask_count(ws@, w as int)),
        decreases W - w,
    {
        let c = count_bits_from(ws[w], 0);
        total = total.saturating_add(c);
        w += 1;
    }
    total
}

/// Number of set bits of `ws` naming slots at or beyond `len`, saturated.
pub fn mask_strays<const W: usize>(ws: &[u32; W], len: usize) -> (r: u32)
    requires
        len <= 255,
    ensures
        r == saturate(stray_count(ws@, len as int, W as int)),
{
    let mut total: u32 = 0;
    let mut w: usize = 0;
    while w < W
        invariant
            w <= W,
            len <= 255,
            total == saturate(stray_count(ws@, len as int, w as int)),
        decreases W - w,
    {
        let from: u32 = if w >= 8 || len <= w * 32 {
            0
        } else if len - w * 32 >= 32 {
            32
        } else {
            (len - w * 32) as u32
        };
        assert(from as int == first_stray(len as int, w as int));
        let c = count_bits_from(ws[w], from);
        total = total.saturating_add(c);
        w += 1;
    }
    total
}

} // verus!
