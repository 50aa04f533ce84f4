//! Bitset encoding of board states and the single-jump move evaluator.
//!
//! A board state is a 16-bit word whose bit `p` says whether hole `p` holds
//! a peg; the triangular board itself only uses holes `0..15`, so every
//! reachable state fits below `0x8000`.

use vstd::prelude::*;

verus! {

/// Bit `p` of `s` is set: hole `p` holds a peg.
pub open spec fn occ(s: u16, p: u16) -> bool {
    (s >> p) & 1u16 == 1u16
}

/// Number of set bits among bits `0 .. i` of `s`.
pub open spec fn count_upto(s: u16, i: nat) -> nat
    decreases i,
{
    if i == 0 {
        0
    } else {
        count_upto(s, (i - 1) as nat) + (if occ(s, (i - 1) as u16) {
            1nat
        } else {
            0nat
        })
    }
}

/// Number of pegs on the board `s`.
pub open spec fn popcount(s: u16) -> nat {
    count_upto(s, 16)
}

/// The board built by setting the listed position bits one after another.
pub open spec fn encode_seq(c: Seq<usize>) -> u16
    decreases c.len(),
{
    if c.len() == 0 {
        0u16
    } else {
        encode_seq(c.drop_last()) | (1u16 << (c.last() as u16))
    }
}

/// The board after a jump: `f` and `o` vacated, `t` filled.
pub open spec fn jump_dest(s: u16, f: u16, o: u16, t: u16) -> u16 {
    (s & !(1u16 << f) & !(1u16 << o)) | (1u16 << t)
}

/// A 16-slot peg board; which holes are occupied.
#[derive(Clone, Copy)]
pub struct PegMap {
    bits: u16,
}

impl View for PegMap {
    type V = u16;

    closed spec fn view(&self) -> u16 {
        self.bits
    }
}

impl PegMap {
    /// The empty board.
    pub fn new() -> (r: PegMap)
        ensures
            r@ == 0u16,
    {
        PegMap { bits: 0 }
    }

    /// The board with the given integer encoding.
    pub fn from_number(n: usize) -> (r: PegMap)
        requires
            n < 0x10000,
        ensures
            r@ == n as u16,
    {
        PegMap { bits: n as u16 }
    }

    /// The board's integer encoding.
    pub fn as_number(&self) -> (r: usize)
        ensures
            r == self@ as usize,
    {
        self.bits as usize
    }

    /// Whether hole `p` holds a peg.
    pub fn occupied(&self, p: usize) -> (r: bool)
        requires
            p < 16,
        ensures
            r == occ(self@, p as u16),
    {
        (self.bits >> (p as u16)) & 1u16 == 1u16
    }

    /// Put a peg at hole `p`, or remove it.
    pub fn set(&mut self, p: usize, v: bool)
        requires
            p < 16,
        ensures
            final(self)@ == (if v {
                old(self)@ | (1u16 << (p as u16))
            } else {
                old(self)@ & !(1u16 << (p as u16))
            }),
    {
        if v {
            self.bits = self.bits | (1u16 << (p as u16));
        } else {
            self.bits = self.bits & !(1u16 << (p as u16));
        }
    }
}

/// Encode a collection of occupied positions as a board. Duplicates are
/// idempotent: afterwards exactly the listed positions hold pegs.
pub fn build_peg_map(combos: &Vec<usize>) -> (r: PegMap)
    requires
        forall|j: int| 0 <= j < combos@.len() ==> combos@[j] < 16,
    ensures
        r@ == encode_seq(combos@),
        forall|p: u16| p < 16 ==> (occ(r@, p) <==> combos@.contains(p as usize)),
{
    let mut bv = PegMap::new();
    let mut j: usize = 0;
    while j < combos.len()
        invariant
            j <= combos@.len(),
            forall|x: int| 0 <= x < combos@.len() ==> combos@[x] < 16,
            bv@ == encode_seq(combos@.subrange(0, j as int)),
        decreases combos@.len() - j,
    {
        bv.set(combos[j], true);
        proof {
            assert(combos@.subrange(0, j as int + 1).drop_last() =~= combos@.subrange(0, j as int));
            assert(combos@.subrange(0, j as int + 1).last() == combos@[j as int]);
        }
        j = j + 1;
    }
    proof {
        assert(combos@.subrange(0, combos@.len() as int) =~= combos@);
        assert forall|p: u16| p < 16 implies (occ(bv@, p) <==> combos@.contains(p as usize)) by {
            lemma_encode_occ(combos@, p);
        }
    }
    bv
}

/// Encoding round trip: a position is occupied in `encode_seq(c)` exactly
/// when it occurs in `c`.
pub proof fn lemma_encode_occ(c: Seq<usize>, p: u16)
    requires
        forall|j: int| 0 <= j < c.len() ==> c[j] < 16,
        p < 16,
    ensures
        occ(encode_seq(c), p) <==> c.contains(p as usize),
    decreases c.len(),
{
    if c.len() == 0 {
        assert(!occ(0u16, p)) by (bit_vector);
    } else {
        let d = c.drop_last();
        lemma_encode_occ(d, p);
        let e = encode_seq(d);
        let l = c.last() as u16;
        assert(occ(e | (1u16 << l), p) <==> (p == l || occ(e, p))) by (bit_vector)
            requires
                p < 16,
                l < 16,
        ;
        assert(encode_seq(c) == e | (1u16 << l));
        if c.contains(p as usize) {
            let i = choose|i: int| 0 <= i < c.len() && c[i] == p as usize;
            if i < c.len() - 1 {
                assert(d[i] == p as usize);
                assert(d.contains(p as usize));
            }
        }
        if d.contains(p as usize) {
            let i = choose|i: int| 0 <= i < d.len() && d[i] == p as usize;
            assert(c[i] == p as usize);
            assert(c.contains(p as usize));
        }
        if p == l {
            assert(c[c.len() - 1] == p as usize);
            assert(c.contains(p as usize));
        }
    }
}

/// Setting a single position bit yields exactly the power of two at that
/// index.
pub proof fn lemma_singleton_encoding(p: u16)
    requires
        p < 16,
    ensures
        encode_seq(seq![p as usize]) == 1u16 << p,
{
    let c = seq![p as usize];
    assert(c.drop_last() =~= Seq::<usize>::empty());
    assert(c.last() == p as usize);
    assert((p as usize) as u16 == p);
    assert(encode_seq(Seq::<usize>::empty()) == 0u16);
    assert(encode_seq(c) == 0u16 | (1u16 << p));
    assert(0u16 | (1u16 << p) == 1u16 << p) by (bit_vector);
}

/// Try one jump on the board: the peg at `starting_peg` leaps over
/// `jump_over_location` into `destination`. The starting hole must hold a
/// peg; a missing jumped peg or an occupied destination is an ordinary
/// "not applicable" result, not an error.
pub fn jump_peg(
    peg_map: &PegMap,
    starting_peg: usize,
    jump_over_location: usize,
    destination: usize,
) -> (r: Option<usize>)
    requires
        starting_peg < 16,
        jump_over_location < 16,
        destination < 16,
        occ(peg_map@, starting_peg as u16),
    ensures
        r == (if occ(peg_map@, jump_over_location as u16) && !occ(peg_map@, destination as u16) {
            Some(
                jump_dest(
                    peg_map@,
                    starting_peg as u16,
                    jump_over_location as u16,
                    destination as u16,
                ) as usize,
            )
        } else {
            None::<usize>
        }),
{
    if !peg_map.occupied(jump_over_location) {
        return None;
    }
    if peg_map.occupied(destination) {
        return None;
    }
    let mut updated_bv = peg_map.clone();
    updated_bv.set(starting_peg, false);
    updated_bv.set(jump_over_location, false);
    updated_bv.set(destination, true);
    Some(updated_bv.as_number())
}

/// A successful jump vacates the start and jumped positions, fills the
/// destination, and leaves every other position unchanged.
pub proof fn lemma_jump_dest_bits(s: u16, f: u16, o: u16, t: u16)
    requires
        f < 16,
        o < 16,
        t < 16,
        occ(s, f),
        occ(s, o),
        !occ(s, t),
    ensures
        !occ(jump_dest(s, f, o, t), f),
        !occ(jump_dest(s, f, o, t), o),
        occ(jump_dest(s, f, o, t), t),
        forall|q: u16|
            q < 16 && q != f && q != o && q != t ==> occ(jump_dest(s, f, o, t), q) == occ(s, q),
{
    assert((!occ(jump_dest(s, f, o, t), f)) && (!occ(jump_dest(s, f, o, t), o)) && occ(
        jump_dest(s, f, o, t),
        t,
    ) && (forall|q: u16|
        q < 16 && q != f && q != o && q != t ==> occ(jump_dest(s, f, o, t), q) == occ(s, q)))
        by (bit_vector)
        requires
            f < 16,
            o < 16,
            t < 16,
            occ(s, f),
            occ(s, o),
            !occ(s, t),
    ;
}

/// Count the pegs on board `s`.
pub fn popcount16(s: u16) -> (r: u32)
    ensures
        r == popcount(s),
{
    let mut r: u32 = 0;
    let mut i: u16 = 0;
    while i < 16
        invariant
            i <= 16,
            r <= i,
            r == count_upto(s, i as nat),
        decreases 16 - i,
    {
        if (s >> i) & 1u16 == 1u16 {
            r = r + 1;
        }
        i = i + 1;
    }
    r
}

pub(crate) proof fn lemma_count_le(s: u16, i: nat)
    ensures
        count_upto(s, i) <= i,
    decreases i,
{
    if i != 0 {
        lemma_count_le(s, (i - 1) as nat);
    }
}

pub(crate) proof fn lemma_count_zero(i: nat)
    ensures
        count_upto(0u16, i) == 0,
    decreases i,
{
    if i != 0 {
        lemma_count_zero((i - 1) as nat);
        let j = (i - 1) as u16;
        assert(!occ(0u16, j)) by (bit_vector);
    }
}

/// On a board that never uses slot 15, the peg count is the count of the
/// low 15 bits and is at most 15.
pub(crate) proof fn lemma_popcount_low(s: u16)
    requires
        s < 0x8000,
    ensures
        popcount(s) == count_upto(s, 15),
        popcount(s) <= 15,
{
    lemma_count_le(s, 15);
    assert(!occ(s, 15)) by (bit_vector)
        requires
            s < 0x8000,
    ;
}

pub(crate) proof fn lemma_count_clear(s: u16, t: u16, i: nat)
    requires
        t < 16,
        i <= 16,
        occ(s, t),
    ensures
        count_upto(s, i) == count_upto(s & !(1u16 << t), i) + (if (t as nat) < i {
            1nat
        } else {
            0nat
        }),
    decreases i,
{
    if i != 0 {
        lemma_count_clear(s, t, (i - 1) as nat);
        let j = (i - 1) as u16;
        if j == t {
            assert(!occ(s & !(1u16 << t), t)) by (bit_vector)
                requires
                    t < 16,
            ;
        } else {
            assert(occ(s & !(1u16 << t), j) == occ(s, j)) by (bit_vector)
                requires
                    j != t,
            ;
        }
    }
}

pub(crate) proof fn lemma_count_set(s: u16, t: u16, i: nat)
    requires
        t < 16,
        i <= 16,
        !occ(s, t),
    ensures
        count_upto(s | (1u16 << t), i) == count_upto(s, i) + (if (t as nat) < i {
            1nat
        } else {
            0nat
        }),
    decreases i,
{
    if i != 0 {
        lemma_count_set(s, t, (i - 1) as nat);
        let j = (i - 1) as u16;
        if j == t {
            assert(occ(s | (1u16 << t), t)) by (bit_vector)
                requires
                    t < 16,
            ;
        } else {
            assert(occ(s | (1u16 << t), j) == occ(s, j)) by (bit_vector)
                requires
                    j != t,
            ;
        }
    }
}

/// One jump removes exactly one peg: the resulting board has one peg fewer
/// than the board it came from.
pub proof fn lemma_jump_popcount(s: u16, f: u16, o: u16, t: u16)
    requires
        f < 16,
        o < 16,
        t < 16,
        f != o,
        occ(s, f),
        occ(s, o),
        !occ(s, t),
    ensures
        popcount(jump_dest(s, f, o, t)) + 1 == popcount(s),
{
    lemma_count_clear(s, f, 16);
    assert(occ(s & !(1u16 << f), o)) by (bit_vector)
        requires
            o != f,
            occ(s, o),
    ;
    lemma_count_clear(s & !(1u16 << f), o, 16);
    assert(!occ(s & !(1u16 << f) & !(1u16 << o), t)) by (bit_vector)
        requires
            !occ(s, t),
    ;
    lemma_count_set(s & !(1u16 << f) & !(1u16 << o), t, 16);
}

} // verus!
