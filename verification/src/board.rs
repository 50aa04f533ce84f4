//! The fixed jump table of the 15-hole triangular board, holes numbered row
//! by row from the top:
//!
//! ```text
//!       0
//!     1   2
//!   3   4   5
//!  ...
//! ```

use vstd::prelude::*;

verus! {

/// The jumps available from one board hole: (jumped hole, landing hole).
pub struct Location {
    jumps: Vec<(usize, usize)>,
}

impl View for Location {
    type V = Seq<(usize, usize)>;

    closed spec fn view(&self) -> Seq<(usize, usize)> {
        self.jumps@
    }
}

impl Location {
    pub fn new(jumps: Vec<(usize, usize)>) -> (r: Location)
        ensures
            r@ == jumps@,
    {
        Location { jumps }
    }

    /// The jump list of this hole.
    pub fn jumps(&self) -> (r: &Vec<(usize, usize)>)
        ensures
            r@ == self@,
    {
        &self.jumps
    }
}

/// The jump table of the standard triangular board: for each hole, the
/// (jumped, landing) pairs of every straight-line jump starting there.
pub open spec fn jumps_spec(p: int) -> Seq<(usize, usize)> {
    if p == 0 {
        seq![(1usize, 3usize), (2usize, 5usize)]
    } else if p == 1 {
        seq![(3usize, 6usize), (4usize, 8usize)]
    } else if p == 2 {
        seq![(4usize, 7usize), (5usize, 9usize)]
    } else if p == 3 {
        seq![(1usize, 0usize), (6usize, 10usize), (7usize, 12usize), (4usize, 5usize)]
    } else if p == 4 {
        seq![(7usize, 11usize), (8usize, 13usize)]
    } else if p == 5 {
        seq![(2usize, 0usize), (8usize, 12usize), (9usize, 14usize), (4usize, 3usize)]
    } else if p == 6 {
        seq![(3usize, 1usize), (7usize, 8usize)]
    } else if p == 7 {
        seq![(4usize, 2usize), (8usize, 9usize)]
    } else if p == 8 {
        seq![(7usize, 6usize), (4usize, 1usize)]
    } else if p == 9 {
        seq![(5usize, 2usize), (8usize, 7usize)]
    } else if p == 10 {
        seq![(6usize, 3usize), (11usize, 12usize)]
    } else if p == 11 {
        seq![(7usize, 4usize), (12usize, 13usize)]
    } else if p == 12 {
        seq![(7usize, 3usize), (8usize, 5usize), (11usize, 10usize), (13usize, 14usize)]
    } else if p == 13 {
        seq![(8usize, 4usize), (12usize, 11usize)]
    } else if p == 14 {
        seq![(9usize, 5usize), (13usize, 12usize)]
    } else {
        Seq::empty()
    }
}

/// `(f, j)` names the `j`-th jump out of hole `f`.
pub open spec fn valid_move(f: int, j: int) -> bool {
    0 <= f < 15 && 0 <= j < jumps_spec(f).len()
}

/// The named jump stays on the board and involves three pairwise distinct
/// holes.
pub open spec fn move_wf(f: int, j: int) -> bool {
    jumps_spec(f)[j].0 < 15 && jumps_spec(f)[j].1 < 15 && jumps_spec(f)[j].0 as int != f
        && jumps_spec(f)[j].1 as int != f && jumps_spec(f)[j].0 != jumps_spec(f)[j].1
}

/// Every jump of the table is well formed.
pub proof fn lemma_board_wf()
    ensures
        forall|f: int, j: int| valid_move(f, j) ==> #[trigger] move_wf(f, j),
{
}

fn loc2(o0: usize, t0: usize, o1: usize, t1: usize) -> (r: Location)
    ensures
        r@ == seq![(o0, t0), (o1, t1)],
{
    let mut v: Vec<(usize, usize)> = Vec::new();
    v.push((o0, t0));
    v.push((o1, t1));
    proof {
        assert(v@ =~= seq![(o0, t0), (o1, t1)]);
    }
    Location::new(v)
}

fn loc4(o0: usize, t0: usize, o1: usize, t1: usize, o2: usize, t2: usize, o3: usize, t3: usize) -> (r:
    Location)
    ensures
        r@ == seq![(o0, t0), (o1, t1), (o2, t2), (o3, t3)],
{
    let mut v: Vec<(usize, usize)> = Vec::new();
    v.push((o0, t0));
    v.push((o1, t1));
    v.push((o2, t2));
    v.push((o3, t3));
    proof {
        assert(v@ =~= seq![(o0, t0), (o1, t1), (o2, t2), (o3, t3)]);
    }
    Location::new(v)
}

/// Build the board's jump table.
pub fn build_locations() -> (r: Vec<Location>)
    ensures
        r@.len() == 15,
        forall|p: int| 0 <= p < 15 ==> #[trigger] r@[p]@ == jumps_spec(p),
{
    let mut locs: Vec<Location> = Vec::new();
    locs.push(loc2(1, 3, 2, 5));
    locs.push(loc2(3, 6, 4, 8));
    locs.push(loc2(4, 7, 5, 9));
    locs.push(loc4(1, 0, 6, 10, 7, 12, 4, 5));
    locs.push(loc2(7, 11, 8, 13));
    locs.push(loc4(2, 0, 8, 12, 9, 14, 4, 3));
    locs.push(loc2(3, 1, 7, 8));
    locs.push(loc2(4, 2, 8, 9));
    locs.push(loc2(7, 6, 4, 1));
    locs.push(loc2(5, 2, 8, 7));
    locs.push(loc2(6, 3, 11, 12));
    locs.push(loc2(7, 4, 12, 13));
    locs.push(loc4(7, 3, 8, 5, 11, 10, 13, 14));
    locs.push(loc2(8, 4, 12, 11));
    locs.push(loc2(9, 5, 13, 12));
    locs
}

/// The two rotation permutations of the board. The solver searches the full
/// state space and never consults them; they only describe the board's
/// symmetry.
pub fn build_rotation_maps() -> (r: [Vec<usize>; 2])
    ensures
        r[0]@ == seq![10usize, 11, 6, 12, 7, 3, 13, 8, 4, 1, 14, 9, 5, 2, 0],
        r[1]@ == seq![14usize, 9, 13, 5, 8, 12, 2, 4, 7, 11, 0, 1, 3, 6, 10],
{
    let mut a: Vec<usize> = Vec::new();
    a.push(10);
    a.push(11);
    a.push(6);
    a.push(12);
    a.push(7);
    a.push(3);
    a.push(13);
    a.push(8);
    a.push(4);
    a.push(1);
    a.push(14);
    a.push(9);
    a.push(5);
    a.push(2);
    a.push(0);
    let mut b: Vec<usize> = Vec::new();
    b.push(14);
    b.push(9);
    b.push(13);
    b.push(5);
    b.push(8);
    b.push(12);
    b.push(2);
    b.push(4);
    b.push(7);
    b.push(11);
    b.push(0);
    b.push(1);
    b.push(3);
    b.push(6);
    b.push(10);
    proof {
        assert(a@ =~= seq![10usize, 11, 6, 12, 7, 3, 13, 8, 4, 1, 14, 9, 5, 2, 0]);
        assert(b@ =~= seq![14usize, 9, 13, 5, 8, 12, 2, 4, 7, 11, 0, 1, 3, 6, 10]);
    }
    [a, b]
}

} // verus!
