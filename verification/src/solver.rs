//! Bottom-up classification of every board state as winning or losing.
//!
//! A board wins when some sequence of legal jumps reduces it to at most one
//! peg. Since every jump removes exactly one peg, a board's classification
//! depends only on boards with strictly fewer pegs, so the table is filled
//! in increasing order of peg count.

use vstd::prelude::*;
use itertools::Itertools;
use crate::board::Location;
use crate::board::build_locations;
use crate::board::jumps_spec;
use crate::board::valid_move;
use crate::board::move_wf;
use crate::board::lemma_board_wf;
use crate::pegs::PegMap;
use crate::pegs::occ;
use crate::pegs::count_upto;
use crate::pegs::popcount;
use crate::pegs::encode_seq;
use crate::pegs::jump_dest;
use crate::pegs::build_peg_map;
use crate::pegs::jump_peg;
use crate::pegs::popcount16;
use crate::pegs::lemma_encode_occ;
use crate::pegs::lemma_jump_popcount;
use crate::pegs::lemma_count_set;
use crate::pegs::lemma_count_zero;
use crate::pegs::lemma_popcount_low;

verus! {

/// The jump `(f, j)` of the board table is applicable on board `s`.
pub open spec fn jump_ok(s: u16, f: int, j: int) -> bool {
    valid_move(f, j) && occ(s, f as u16) && occ(s, jumps_spec(f)[j].0 as u16) && !occ(
        s,
        jumps_spec(f)[j].1 as u16,
    )
}

/// The board after playing jump `(f, j)` on `s`.
pub open spec fn jump_state(s: u16, f: int, j: int) -> u16 {
    jump_dest(s, f as u16, jumps_spec(f)[j].0 as u16, jumps_spec(f)[j].1 as u16)
}

/// Whether a board of `n` pegs can be reduced to a single peg, by recursion
/// on the peg count: a board of at most one peg is already won, and a larger
/// board wins when some applicable jump leads to a winning board of one peg
/// fewer.
pub open spec fn wins_rec(s: u16, n: nat) -> bool
    decreases n,
{
    if n <= 1 {
        true
    } else {
        exists|f: int, j: int|
            #[trigger] jump_ok(s, f, j) && wins_rec(jump_state(s, f, j), (n - 1) as nat)
    }
}

/// Whether board `s` can be reduced to a single peg through legal jumps.
pub open spec fn wins(s: u16) -> bool {
    wins_rec(s, popcount(s))
}

/// Every board with zero pegs or one peg is won.
pub proof fn lemma_base_wins(s: u16)
    requires
        popcount(s) <= 1,
    ensures
        wins(s),
{
}

/// Jump `(f, j)` applies on the `n`-peg board `s` and leads to a board that
/// wins with `n - 1` pegs.
pub open spec fn winning_jump(s: u16, n: nat, f: int, j: int) -> bool {
    jump_ok(s, f, j) && wins_rec(jump_state(s, f, j), (n - 1) as nat)
}

/// No jump out of hole `f` wins on the `n`-peg board `s`.
pub open spec fn no_win_from(s: u16, n: nat, f: int) -> bool {
    forall|j: int| !(#[trigger] winning_jump(s, n, f, j))
}

proof fn lemma_wins_rec_unfold(s: u16, n: nat)
    requires
        n >= 2,
    ensures
        wins_rec(s, n) <==> exists|f: int, j: int| #[trigger] winning_jump(s, n, f, j),
{
    if wins_rec(s, n) {
        let (f, j) = choose|f: int, j: int|
            #[trigger] jump_ok(s, f, j) && wins_rec(jump_state(s, f, j), (n - 1) as nat);
        assert(winning_jump(s, n, f, j));
    }
    if exists|f: int, j: int| #[trigger] winning_jump(s, n, f, j) {
        let (f, j) = choose|f: int, j: int| #[trigger] winning_jump(s, n, f, j);
        assert(jump_ok(s, f, j) && wins_rec(jump_state(s, f, j), (n - 1) as nat));
    }
}

/// A strictly increasing list of `k` holes drawn from `0 .. n`.
pub open spec fn is_combo(c: Seq<usize>, n: usize, k: usize) -> bool {
    &&& c.len() == k
    &&& forall|a: int| 0 <= a < c.len() ==> c[a] < n
    &&& forall|a: int, b: int| 0 <= a < b < c.len() ==> c[a] < c[b]
}

/// Relies on itertools' `combinations` over the range `0..n`: it yields
/// every `k`-element combination of the range exactly once, each listing its
/// elements in the source's increasing order.
#[verifier::external_body]
fn combinations_of(n: usize, k: usize) -> (r: Vec<Vec<usize>>)
    ensures
        forall|i: int| 0 <= i < r@.len() ==> is_combo(#[trigger] r@[i]@, n, k),
        forall|c: Seq<usize>|
            #[trigger] is_combo(c, n, k) ==> exists|i: int| 0 <= i < r@.len() && r@[i]@ == c,
{
    (0..n).combinations(k).collect()
}

/// The occupied holes of `s` below `i`, in increasing order.
pub open spec fn bits_upto(s: u16, i: nat) -> Seq<usize>
    decreases i,
{
    if i == 0 {
        Seq::empty()
    } else if occ(s, (i - 1) as u16) {
        bits_upto(s, (i - 1) as nat).push((i - 1) as usize)
    } else {
        bits_upto(s, (i - 1) as nat)
    }
}

/// The low `i` bits, all set.
pub open spec fn mask16(i: u16) -> u16 {
    ((1u32 << i) - 1) as u16
}

proof fn lemma_bits_upto(s: u16, i: nat)
    requires
        i <= 16,
    ensures
        bits_upto(s, i).len() == count_upto(s, i),
        forall|a: int| 0 <= a < bits_upto(s, i).len() ==> bits_upto(s, i)[a] < i,
        forall|a: int, b: int|
            0 <= a < b < bits_upto(s, i).len() ==> bits_upto(s, i)[a] < bits_upto(s, i)[b],
        encode_seq(bits_upto(s, i)) == s & mask16(i as u16),
    decreases i,
{
    if i == 0 {
        assert(s & mask16(0) == 0u16) by (bit_vector);
    } else {
        lemma_bits_upto(s, (i - 1) as nat);
        let j = (i - 1) as u16;
        let d = bits_upto(s, (i - 1) as nat);
        let e = encode_seq(d);
        if occ(s, j) {
            let c = bits_upto(s, i);
            assert(c == d.push((i - 1) as usize));
            assert(c.drop_last() =~= d);
            assert(c.last() == (i - 1) as usize);
            assert(encode_seq(c) == e | (1u16 << j));
            assert((s & mask16(j)) | (1u16 << j) == s & mask16((j + 1) as u16)) by (bit_vector)
                requires
                    j < 16,
                    occ(s, j),
            ;
        } else {
            assert(s & mask16(j) == s & mask16((j + 1) as u16)) by (bit_vector)
                requires
                    j < 16,
                    !occ(s, j),
            ;
        }
    }
}

/// Encoding a strictly increasing list of holes below 15 gives a board
/// below `0x8000` with exactly that many pegs.
proof fn lemma_combo_encode(c: Seq<usize>)
    requires
        forall|a: int| 0 <= a < c.len() ==> c[a] < 15,
        forall|a: int, b: int| 0 <= a < b < c.len() ==> c[a] < c[b],
    ensures
        encode_seq(c) < 0x8000,
        popcount(encode_seq(c)) == c.len(),
    decreases c.len(),
{
    if c.len() == 0 {
        lemma_count_zero(16);
    } else {
        let d = c.drop_last();
        lemma_combo_encode(d);
        let l = c.last() as u16;
        let e = encode_seq(d);
        assert(!d.contains(c.last())) by {
            if d.contains(c.last()) {
                let i = choose|i: int| 0 <= i < d.len() && d[i] == c.last();
                assert(c[i] == c[c.len() - 1]);
            }
        }
        assert((c.last() as u16) as usize == c.last());
        lemma_encode_occ(d, l);
        lemma_count_set(e, l, 16);
        assert(e | (1u16 << l) < 0x8000) by (bit_vector)
            requires
                e < 0x8000,
                l < 15,
        ;
    }
}

/// What the finished rows of the table say: every board of fewer than `n`
/// pegs is classified, every triangular board of `n` or more pegs is still
/// unknown, and the slots above the triangular range hold only the base
/// cases.
pub open spec fn table_wf(t: Seq<Option<bool>>, n: int) -> bool {
    &&& t.len() == 0x10000
    &&& forall|x: int| 0 <= x < 0x8000 && popcount(x as u16) < n ==> t[x] == Some(wins(x as u16))
    &&& forall|x: int| 0 <= x < 0x8000 && popcount(x as u16) >= n ==> t[x] == None::<bool>
    &&& forall|x: int|
        0x8000 <= x < 0x10000 ==> t[x] == (if popcount(x as u16) <= 1 {
            Some(true)
        } else {
            None::<bool>
        })
}

/// What the table says while the `n`-peg tier is being filled: boards of
/// fewer pegs are classified, boards of more pegs are unknown, and each
/// board of exactly `n` pegs is either still unknown or already correctly
/// classified.
pub open spec fn table_mid(t: Seq<Option<bool>>, n: int) -> bool {
    &&& t.len() == 0x10000
    &&& forall|x: int| 0 <= x < 0x8000 && popcount(x as u16) < n ==> t[x] == Some(wins(x as u16))
    &&& forall|x: int| 0 <= x < 0x8000 && popcount(x as u16) > n ==> t[x] == None::<bool>
    &&& forall|x: int|
        0 <= x < 0x8000 && popcount(x as u16) == n ==> (t[x] == None::<bool> || t[x] == Some(
            wins(x as u16),
        ))
    &&& forall|x: int|
        0x8000 <= x < 0x10000 ==> t[x] == (if popcount(x as u16) <= 1 {
            Some(true)
        } else {
            None::<bool>
        })
}

/// Classify every board of exactly `n` pegs, given that all smaller boards
/// are already classified.
fn solve_tier(table: &mut Vec<Option<bool>>, locations: &Vec<Location>, n: usize)
    requires
        2 <= n < 16,
        locations@.len() == 15,
        forall|p: int| 0 <= p < 15 ==> #[trigger] locations@[p]@ == jumps_spec(p),
        table_wf(old(table)@, n as int),
    ensures
        table_wf(final(table)@, n as int + 1),
{
    proof {
        lemma_board_wf();
    }
    let combos = combinations_of(15, n);
    let mut ci: usize = 0;
    while ci < combos.len()
        invariant
            2 <= n < 16,
            locations@.len() == 15,
            forall|p: int| 0 <= p < 15 ==> #[trigger] locations@[p]@ == jumps_spec(p),
            forall|f: int, j: int| valid_move(f, j) ==> #[trigger] move_wf(f, j),
            forall|i: int| 0 <= i < combos@.len() ==> is_combo(#[trigger] combos@[i]@, 15, n),
            forall|c: Seq<usize>|
                #[trigger] is_combo(c, 15, n) ==> exists|i: int|
                    0 <= i < combos@.len() && combos@[i]@ == c,
            ci <= combos@.len(),
            table_mid(table@, n as int),
            forall|m: int|
                0 <= m < ci ==> table@[encode_seq(#[trigger] combos@[m]@) as int] == Some(
                    wins(encode_seq(combos@[m]@)),
                ),
        decreases combos@.len() - ci,
    {
        classify_combo(table, locations, n, &combos, ci);
        ci = ci + 1;
    }
    proof {
        assert forall|x: int|
            0 <= x < 0x8000 && popcount(x as u16) < n as int + 1 implies table@[x] == Some(
            wins(x as u16),
        ) by {
            if popcount(x as u16) == n as int {
                let su = x as u16;
                assert(su < 0x8000);
                lemma_bits_upto(su, 15);
                lemma_popcount_low(su);
                let c = bits_upto(su, 15);
                assert(is_combo(c, 15, n));
                let m = choose|m: int| 0 <= m < combos@.len() && combos@[m]@ == c;
                assert(su & mask16(15) == su) by (bit_vector)
                    requires
                        su < 0x8000,
                ;
                assert(encode_seq(combos@[m]@) == su);
                assert(table@[encode_seq(combos@[m]@) as int] == Some(wins(encode_seq(combos@[m]@))));
            }
        }
    }
}

/// Classify the board of one combination: it loses unless some applicable
/// jump reaches an already classified winning board.
fn classify_combo(
    table: &mut Vec<Option<bool>>,
    locations: &Vec<Location>,
    n: usize,
    combos: &Vec<Vec<usize>>,
    ci: usize,
)
    requires
        2 <= n < 16,
        locations@.len() == 15,
        forall|p: int| 0 <= p < 15 ==> #[trigger] locations@[p]@ == jumps_spec(p),
        forall|f: int, j: int| valid_move(f, j) ==> #[trigger] move_wf(f, j),
        ci < combos@.len(),
        forall|i: int| 0 <= i < combos@.len() ==> is_combo(#[trigger] combos@[i]@, 15, n),
        table_mid(old(table)@, n as int),
    ensures
        table_mid(final(table)@, n as int),
        final(table)@ == old(table)@.update(
            encode_seq(combos@[ci as int]@) as int,
            Some(wins(encode_seq(combos@[ci as int]@))),
        ),
{
    let combo = &combos[ci];
    proof {
        assert(is_combo(combo@, 15, n));
    }
    let pm = build_peg_map(combo);
    let enc = pm.as_number();
    let ghost sb = pm@;
    proof {
        lemma_combo_encode(combo@);
        assert(sb < 0x8000 && popcount(sb) == n);
    }
    let mut won = false;
    let mut a: usize = 0;
    while a < combo.len()
        invariant
            2 <= n < 16,
            locations@.len() == 15,
            forall|p: int| 0 <= p < 15 ==> #[trigger] locations@[p]@ == jumps_spec(p),
            forall|f: int, j: int| valid_move(f, j) ==> #[trigger] move_wf(f, j),
            is_combo(combo@, 15, n),
            pm@ == sb,
            sb == encode_seq(combo@),
            sb < 0x8000,
            popcount(sb) == n,
            forall|p: u16| p < 16 ==> (occ(sb, p) <==> combo@.contains(p as usize)),
            table_mid(table@, n as int),
            table@ == old(table)@,
            a <= combo@.len(),
            won ==> wins_rec(sb, n as nat),
            !won ==> forall|x: int|
                0 <= x < a ==> #[trigger] no_win_from(sb, n as nat, combo@[x] as int),
        decreases combo@.len() - a,
    {
        let f = combo[a];
        let peg = &locations[f];
        let jumps = peg.jumps();
        proof {
            assert(combo@.contains(combo@[a as int]));
            assert(occ(sb, f as u16));
            assert(peg@ == jumps_spec(f as int));
        }
        let mut ji: usize = 0;
        while ji < jumps.len()
            invariant
                2 <= n < 16,
                f < 15,
                jumps@ == jumps_spec(f as int),
                forall|fx: int, jx: int| valid_move(fx, jx) ==> #[trigger] move_wf(fx, jx),
                pm@ == sb,
                sb < 0x8000,
                popcount(sb) == n,
                occ(sb, f as u16),
                table_mid(table@, n as int),
                table@ == old(table)@,
                ji <= jumps@.len(),
                won ==> wins_rec(sb, n as nat),
                !won ==> forall|x: int|
                    0 <= x < a ==> #[trigger] no_win_from(sb, n as nat, combo@[x] as int),
                !won ==> forall|j: int| 0 <= j < ji ==> !(#[trigger] winning_jump(
                    sb,
                    n as nat,
                    f as int,
                    j,
                )),
            ensures
                won ==> wins_rec(sb, n as nat),
                !won ==> no_win_from(sb, n as nat, f as int),
            decreases jumps@.len() - ji,
        {
            let pair = jumps[ji];
            let jump_over_location = pair.0;
            let destination = pair.1;
            proof {
                assert(valid_move(f as int, ji as int));
                assert(move_wf(f as int, ji as int));
            }
            if let Some(board_after_jump) = jump_peg(&pm, f, jump_over_location, destination) {
                proof {
                    let fu = f as u16;
                    let ou = jump_over_location as u16;
                    let tu = destination as u16;
                    lemma_jump_popcount(sb, fu, ou, tu);
                    assert(jump_dest(sb, fu, ou, tu) < 0x8000) by (bit_vector)
                        requires
                            sb < 0x8000,
                            tu < 15,
                    ;
                    assert(board_after_jump == jump_state(sb, f as int, ji as int) as usize);
                }
                let w = table[board_after_jump];
                if let Some(winner) = w {
                    if winner {
                        proof {
                            let nx = jump_state(sb, f as int, ji as int);
                            assert(table@[nx as int] == Some(wins(nx)));
                            assert(wins_rec(nx, popcount(nx)));
                            assert(popcount(nx) == n - 1);
                            assert(jump_ok(sb, f as int, ji as int));
                            assert(winning_jump(sb, n as nat, f as int, ji as int));
                            lemma_wins_rec_unfold(sb, n as nat);
                        }
                        won = true;
                        break ;
                    }
                }
                proof {
                    if !won {
                        let nx = jump_state(sb, f as int, ji as int);
                        assert(table@[nx as int] == Some(wins(nx)));
                        assert(!wins_rec(nx, (n - 1) as nat));
                        assert(!winning_jump(sb, n as nat, f as int, ji as int));
                    }
                }
            } else {
                proof {
                    assert(!jump_ok(sb, f as int, ji as int));
                    assert(!winning_jump(sb, n as nat, f as int, ji as int));
                }
            }
            ji = ji + 1;
        }
        proof {
            if !won {
                assert forall|j: int| !(#[trigger] winning_jump(sb, n as nat, f as int, j)) by {
                    if 0 <= j < jumps_spec(f as int).len() {
                    } else {
                        assert(!valid_move(f as int, j));
                        assert(!jump_ok(sb, f as int, j));
                    }
                }
                assert(no_win_from(sb, n as nat, f as int));
            }
        }
        a = a + 1;
    }
    proof {
        lemma_wins_rec_unfold(sb, n as nat);
        if !won {
            assert forall|f2: int, j2: int| !(#[trigger] winning_jump(sb, n as nat, f2, j2)) by {
                if valid_move(f2, j2) {
                    if occ(sb, f2 as u16) {
                        assert(combo@.contains((f2 as u16) as usize));
                        assert((f2 as u16) as usize == f2 as usize);
                        let x = choose|x: int| 0 <= x < combo@.len() && combo@[x] == f2 as usize;
                        assert(no_win_from(sb, n as nat, combo@[x] as int));
                        assert(!winning_jump(sb, n as nat, f2, j2));
                    } else {
                        assert(!jump_ok(sb, f2, j2));
                    }
                } else {
                    assert(!jump_ok(sb, f2, j2));
                }
            }
        }
        assert(won == wins_rec(sb, n as nat));
        assert(wins(sb) == wins_rec(sb, n as nat));
    }
    table[enc] = Some(won);
    proof {
        assert(table@ == old(table)@.update(enc as int, Some(wins(sb))));
        assert forall|x: int|
            0 <= x < 0x8000 && popcount(x as u16) < n as int implies table@[x] == Some(
            wins(x as u16),
        ) by {
            if x == enc as int {
                assert(x as u16 == sb);
            }
        }
        assert forall|x: int|
            0 <= x < 0x8000 && popcount(x as u16) > n as int implies table@[x] == None::<bool> by {
            if x == enc as int {
                assert(x as u16 == sb);
            }
        }
        assert forall|x: int|
            0 <= x < 0x8000 && popcount(x as u16) == n as int implies (table@[x] == None::<bool>
            || table@[x] == Some(wins(x as u16))) by {
            if x == enc as int {
                assert(x as u16 == sb);
            }
        }
    }
}

/// Classify every board: boards of zero pegs or one peg are won outright,
/// then each peg-count tier is filled from the tiers below it.
pub fn solve() -> (table: Vec<Option<bool>>)
    ensures
        table@.len() == 0x10000,
        forall|s: int| 0 <= s < 0x8000 ==> table@[s] == Some(wins(s as u16)),
        forall|s: int|
            0x8000 <= s < 0x10000 ==> table@[s] == (if popcount(s as u16) <= 1 {
                Some(true)
            } else {
                None::<bool>
            }),
{
    let mut table: Vec<Option<bool>> = Vec::new();
    let mut s: usize = 0;
    while s < 0x10000
        invariant
            s <= 0x10000,
            table@.len() == s,
            forall|x: int|
                0 <= x < s ==> table@[x] == (if popcount(x as u16) <= 1 {
                    Some(true)
                } else {
                    None::<bool>
                }),
        decreases 0x10000 - s,
    {
        let pc = popcount16(s as u16);
        if pc <= 1 {
            table.push(Some(true));
        } else {
            table.push(None);
        }
        s = s + 1;
    }
    let locations = build_locations();
    let mut n: usize = 2;
    while n < 16
        invariant
            2 <= n <= 16,
            locations@.len() == 15,
            forall|p: int| 0 <= p < 15 ==> #[trigger] locations@[p]@ == jumps_spec(p),
            table_wf(table@, n as int),
        decreases 16 - n,
    {
        solve_tier(&mut table, &locations, n);
        n = n + 1;
    }
    proof {
        assert forall|x: int| 0 <= x < 0x8000 implies table@[x] == Some(wins(x as u16)) by {
            lemma_popcount_low(x as u16);
        }
    }
    table
}

/// The classification is deterministic: any two tables that meet the
/// solver's contract agree everywhere, so re-running the solver can never
/// change a count.
pub proof fn lemma_solve_deterministic(t1: Seq<Option<bool>>, t2: Seq<Option<bool>>)
    requires
        t1.len() == 0x10000,
        t2.len() == 0x10000,
        forall|s: int| 0 <= s < 0x8000 ==> t1[s] == Some(wins(s as u16)),
        forall|s: int| 0 <= s < 0x8000 ==> t2[s] == Some(wins(s as u16)),
        forall|s: int|
            0x8000 <= s < 0x10000 ==> t1[s] == (if popcount(s as u16) <= 1 {
                Some(true)
            } else {
                None::<bool>
            }),
        forall|s: int|
            0x8000 <= s < 0x10000 ==> t2[s] == (if popcount(s as u16) <= 1 {
                Some(true)
            } else {
                None::<bool>
            }),
    ensures
        t1 == t2,
{
    assert(t1 =~= t2);
}

/// The number of winning triangular boards of `n` pegs among the table
/// slots below `upto`.
pub open spec fn win_count(t: Seq<Option<bool>>, n: nat, upto: int) -> int
    decreases upto,
{
    if upto <= 0 {
        0
    } else {
        win_count(t, n, upto - 1) + (if popcount((upto - 1) as u16) == n && t[upto - 1] == Some(
            true,
        ) {
            1int
        } else {
            0int
        })
    }
}

/// Count how many boards of exactly `n` pegs are classified winning.
pub fn count_wins(table: &Vec<Option<bool>>, n: usize) -> (r: usize)
    requires
        table@.len() >= 0x8000,
    ensures
        r == win_count(table@, n as nat, 0x8000),
{
    let mut r: usize = 0;
    let mut s: usize = 0;
    while s < 0x8000
        invariant
            table@.len() >= 0x8000,
            s <= 0x8000,
            r <= s,
            r == win_count(table@, n as nat, s as int),
        decreases 0x8000 - s,
    {
        let pc = popcount16(s as u16);
        if pc as usize == n {
            if let Some(t) = table[s] {
                if t {
                    r = r + 1;
                }
            }
        }
        s = s + 1;
    }
    r
}

} // verus!
