//! The lattice of Perlin noise: three permutations of the indices 0..255
//! and the rule that picks a gradient for every lattice point.

use crate::utils::random_below;
use vstd::prelude::*;

verus! {

/// The number of gradients, and the length of every permutation.
pub const POINT_COUNT: usize = 256;

/// The table that holds every index once, in ascending order.
pub open spec fn identity_table() -> Seq<i32> {
    Seq::new(POINT_COUNT as nat, |i: int| i as i32)
}

/// `p` is a rearrangement of the indices 0..255.
pub open spec fn is_permutation(p: Seq<i32>) -> bool {
    p.to_multiset() == identity_table().to_multiset()
}

/// The lattice coordinate `c` wrapped into the table: `c` modulo 256, which
/// is never negative.
pub open spec fn wrap(c: int) -> int {
    c % 256
}

/// The bitwise exclusive-or of three table entries.
pub open spec fn mix(a: i32, b: i32, c: i32) -> usize {
    ((a as u32) ^ (b as u32) ^ (c as u32)) as usize
}

/// The permutation tables of a noise generator, one per axis.
pub struct Perlin {
    perm_x: Vec<i32>,
    perm_y: Vec<i32>,
    perm_z: Vec<i32>,
}

impl Perlin {
    pub closed spec fn spec_perm_x(&self) -> Seq<i32> {
        self.perm_x@
    }

    pub closed spec fn spec_perm_y(&self) -> Seq<i32> {
        self.perm_y@
    }

    pub closed spec fn spec_perm_z(&self) -> Seq<i32> {
        self.perm_z@
    }

    /// Each of the three tables is a permutation of the indices.
    pub open spec fn well_formed(&self) -> bool {
        &&& is_permutation(self.spec_perm_x())
        &&& is_permutation(self.spec_perm_y())
        &&& is_permutation(self.spec_perm_z())
    }

    /// The index of the gradient at the lattice point `(i, j, k)`: each
    /// coordinate is wrapped and looked up in the table of its axis, and the
    /// three entries are combined by exclusive-or.
    pub open spec fn spec_gradient_index(&self, i: int, j: int, k: int) -> usize {
        mix(
            self.spec_perm_x()[wrap(i)],
            self.spec_perm_y()[wrap(j)],
            self.spec_perm_z()[wrap(k)],
        )
    }

    /// A generator with three freshly shuffled tables.
    pub fn new() -> (perlin: Self)
        ensures
            perlin.well_formed(),
    {
        let perm_x = generate_perm();
        let perm_y = generate_perm();
        let perm_z = generate_perm();
        Perlin { perm_x, perm_y, perm_z }
    }

    /// The three tables, in the order x, y, z.
    pub fn permutations(&self) -> (tables: (&Vec<i32>, &Vec<i32>, &Vec<i32>))
        ensures
            tables.0@ == self.spec_perm_x(),
            tables.1@ == self.spec_perm_y(),
            tables.2@ == self.spec_perm_z(),
    {
        (&self.perm_x, &self.perm_y, &self.perm_z)
    }

    /// The index of the gradient at the lattice point `(i, j, k)`.
    pub fn gradient_index(&self, i: i64, j: i64, k: i64) -> (index: usize)
        requires
            self.well_formed(),
        ensures
            index == self.spec_gradient_index(i as int, j as int, k as int),
            index < POINT_COUNT,
    {
        proof {
            lemma_permutation_properties(self.perm_x@);
            lemma_permutation_properties(self.perm_y@);
            lemma_permutation_properties(self.perm_z@);
        }
        let a: i32 = self.perm_x[wrap_coordinate(i)];
        let b: i32 = self.perm_y[wrap_coordinate(j)];
        let c: i32 = self.perm_z[wrap_coordinate(k)];
        let ua: u32 = a as u32;
        let ub: u32 = b as u32;
        let uc: u32 = c as u32;
        assert((ua ^ ub ^ uc) < 256) by (bit_vector)
            requires
                ua < 256,
                ub < 256,
                uc < 256,
        ;
        (ua ^ ub ^ uc) as usize
    }

    /// The gradient index of corner `c` of the lattice cell whose lowest
    /// corner is `(i, j, k)`: corner `4 * di + 2 * dj + dk` lies `di`, `dj`,
    /// `dk` steps up along x, y, z.
    pub open spec fn spec_corner(&self, i: int, j: int, k: int, c: int) -> usize {
        self.spec_gradient_index(i + c / 4, j + (c / 2) % 2, k + c % 2)
    }

    /// The gradient indices of the eight corners of the lattice cell whose
    /// lowest corner is `(i, j, k)`.
    pub fn noise(&self, i: i32, j: i32, k: i32) -> (corners: [usize; 8])
        requires
            self.well_formed(),
        ensures
            forall|c: int|
                0 <= c < 8 ==> #[trigger] corners@[c] == self.spec_corner(
                    i as int,
                    j as int,
                    k as int,
                    c,
                ),
            forall|c: int| 0 <= c < 8 ==> #[trigger] corners@[c] < POINT_COUNT,
    {
        let i0: i64 = i as i64;
        let j0: i64 = j as i64;
        let k0: i64 = k as i64;
        [
            self.gradient_index(i0, j0, k0),
            self.gradient_index(i0, j0, k0 + 1),
            self.gradient_index(i0, j0 + 1, k0),
            self.gradient_index(i0, j0 + 1, k0 + 1),
            self.gradient_index(i0 + 1, j0, k0),
            self.gradient_index(i0 + 1, j0, k0 + 1),
            self.gradient_index(i0 + 1, j0 + 1, k0),
            self.gradient_index(i0 + 1, j0 + 1, k0 + 1),
        ]
    }
}

/// Wraps a lattice coordinate into the table.
pub fn wrap_coordinate(c: i64) -> (index: usize)
    ensures
        index == wrap(c as int),
        index < POINT_COUNT,
{
    let r: i64 = c % 256;
    if r < 0 {
        (r + 256) as usize
    } else {
        r as usize
    }
}

/// A fresh random permutation of the indices 0..255: the table of the
/// indices in ascending order, shuffled.
pub fn generate_perm() -> (p: Vec<i32>)
    ensures
        is_permutation(p@),
        exists|targets: Seq<usize>| #[trigger]
            are_targets(targets, POINT_COUNT as nat) && p@ == shuffled(
                identity_table(),
                targets,
                POINT_COUNT as nat,
            ),
{
    let mut table: Vec<i32> = Vec::with_capacity(POINT_COUNT);
    let mut i: usize = 0;
    while i < POINT_COUNT
        invariant
            i <= POINT_COUNT,
            table@.len() == i,
            forall|k: int| 0 <= k < i ==> table@[k] == k as i32,
        decreases POINT_COUNT - i,
    {
        table.push(i as i32);
        i = i + 1;
    }
    assert(table@ =~= identity_table());
    permutate(&mut table);
    table
}

/// The table after its entries at `i` and `j` have traded places.
pub open spec fn swapped(p: Seq<i32>, i: int, j: int) -> Seq<i32> {
    p.update(i, p[j]).update(j, p[i])
}

/// `targets` names a position of a table of `n` entries for each of its
/// positions.
pub open spec fn are_targets(targets: Seq<usize>, n: nat) -> bool {
    &&& targets.len() == n
    &&& forall|k: int| 0 <= k < n ==> #[trigger] targets[k] < n
}

/// The table after the first `steps` trades of a shuffle.  The trades go
/// from the last position down: the first is between the last position and
/// `targets[0]`, the next between the position before it and `targets[1]`.
pub open spec fn shuffled(p: Seq<i32>, targets: Seq<usize>, steps: nat) -> Seq<i32>
    decreases steps,
{
    if steps == 0 {
        p
    } else {
        swapped(
            shuffled(p, targets, (steps - 1) as nat),
            p.len() - steps,
            targets[steps - 1] as int,
        )
    }
}

/// Shuffles the table in place with the given targets: from the last
/// position down, every position trades its entry with that of its target.
pub fn permutate_with(p: &mut Vec<i32>, targets: &[usize])
    requires
        are_targets(targets@, old(p)@.len()),
    ensures
        final(p)@ == shuffled(old(p)@, targets@, old(p)@.len()),
{
    let n: usize = p.len();
    let mut k: usize = 0;
    while k < n
        invariant
            k <= n,
            p@.len() == n,
            old(p)@.len() == n,
            are_targets(targets@, n as nat),
            p@ == shuffled(old(p)@, targets@, k as nat),
        decreases n - k,
    {
        let i: usize = n - 1 - k;
        let target: usize = targets[k];
        let tmp: i32 = p[i];
        let other: i32 = p[target];
        p[i] = other;
        p[target] = tmp;
        k = k + 1;
    }
}

/// Shuffles the table in place: from the last position down, every position
/// trades its entry with that of a position drawn at random.
pub fn permutate(p: &mut Vec<i32>)
    ensures
        exists|targets: Seq<usize>| #[trigger]
            are_targets(targets, old(p)@.len()) && final(p)@ == shuffled(
                old(p)@,
                targets,
                old(p)@.len(),
            ),
        final(p)@.len() == old(p)@.len(),
        final(p)@.to_multiset() == old(p)@.to_multiset(),
{
    let n: usize = p.len();
    let mut targets: Vec<usize> = Vec::with_capacity(n);
    let mut k: usize = 0;
    while k < n
        invariant
            k <= n,
            targets@.len() == k,
            forall|j: int| 0 <= j < k ==> #[trigger] targets@[j] < n,
        decreases n - k,
    {
        let target: usize = random_below(n);
        targets.push(target);
        k = k + 1;
    }
    proof {
        lemma_shuffle_keeps_entries(p@, targets@, n as nat);
    }
    permutate_with(p, targets.as_slice());
    assert(are_targets(targets@, n as nat));
}

/// A shuffle leaves the collection of the table's entries as it was,
/// whatever its targets are.
pub proof fn lemma_shuffle_keeps_entries(p: Seq<i32>, targets: Seq<usize>, steps: nat)
    requires
        are_targets(targets, p.len()),
        steps <= p.len(),
    ensures
        shuffled(p, targets, steps).len() == p.len(),
        shuffled(p, targets, steps).to_multiset() == p.to_multiset(),
    decreases steps,
{
    if steps > 0 {
        lemma_shuffle_keeps_entries(p, targets, (steps - 1) as nat);
        lemma_swap_keeps_entries(
            shuffled(p, targets, (steps - 1) as nat),
            p.len() - steps,
            targets[steps - 1] as int,
        );
    }
}

/// Trading two entries of a sequence leaves the collection of its entries as
/// it was.
pub proof fn lemma_swap_keeps_entries(s: Seq<i32>, i: int, j: int)
    requires
        0 <= i < s.len(),
        0 <= j < s.len(),
    ensures
        swapped(s, i, j).len() == s.len(),
        swapped(s, i, j).to_multiset() == s.to_multiset(),
{
    broadcast use vstd::multiset::group_multiset_axioms;

    let once = s.update(i, s[j]);
    vstd::seq_lib::to_multiset_update(s, i, s[j]);
    vstd::seq_lib::to_multiset_update(once, j, s[i]);
    s.to_multiset_ensures();
    assert(s.contains(s[i]));
    assert(s.contains(s[j]));
    assert(once[j] == s[j]);
    assert(once.update(j, s[i]).to_multiset() =~= s.to_multiset());
}

/// A permutation of the indices has 256 entries, each an index, no two of
/// them equal, and holds every index.
pub proof fn lemma_permutation_properties(p: Seq<i32>)
    requires
        is_permutation(p),
    ensures
        p.len() == POINT_COUNT,
        forall|i: int| 0 <= i < p.len() ==> 0 <= #[trigger] p[i] < POINT_COUNT,
        p.no_duplicates(),
        forall|v: i32| 0 <= v < POINT_COUNT ==> p.contains(v),
{
    let id = identity_table();
    p.to_multiset_ensures();
    id.to_multiset_ensures();
    assert forall|i: int| 0 <= i < p.len() implies 0 <= #[trigger] p[i] < POINT_COUNT by {
        assert(p.contains(p[i]));
        assert(p.to_multiset().count(p[i]) > 0);
        assert(id.to_multiset().count(p[i]) > 0);
        assert(id.contains(p[i]));
    }
    assert forall|v: i32| 0 <= v < POINT_COUNT implies p.contains(v) by {
        assert(id[v as int] == v);
        assert(id.contains(v));
        assert(id.to_multiset().count(v) > 0);
        assert(p.to_multiset().count(v) > 0);
    }
    assert(id.no_duplicates());
    id.lemma_multiset_has_no_duplicates();
    p.lemma_multiset_has_no_duplicates_conv();
}

} // verus!
