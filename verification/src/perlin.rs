//! Gradient noise on the integer lattice.
use vstd::prelude::*;
use crate::fixed::{Fixed, ONE, TWO, HALF, fadd, fsub, fmul, fabs, ffloor, floor_int,
    spec_fadd, spec_fsub, spec_fmul, spec_fabs, spec_ffloor, spec_floor_int};
use crate::raytracer::{Sampler, random_int_range};
use crate::vec3::Vec3;

verus! {

/// The number of lattice gradients and the length of each index table.
pub const POINT_COUNT: usize = 256;

/// Three index tables and the gradient vectors they select.
#[derive(Debug, PartialEq)]
pub struct perlin {
    pub perm_x: Vec<u32>,
    pub perm_y: Vec<u32>,
    pub perm_z: Vec<u32>,
    pub randvec: Vec<Vec3>,
}

/// The real number 3.
pub const THREE: i64 = 0x300_0000;

/// The real number -1.
pub const NEG_ONE: i64 = -0x100_0000;

/// The table `0, 1, ..., n - 1`.
pub open spec fn identity_table(n: nat) -> Seq<u32> {
    Seq::new(n, |i: int| i as u32)
}

/// Whether `t` holds the numbers below `POINT_COUNT` in some order, each
/// once.
pub open spec fn is_index_table(t: Seq<u32>) -> bool {
    t.to_multiset() == identity_table(POINT_COUNT as nat).to_multiset()
}

/// Whether `t` has `POINT_COUNT` entries, all below `POINT_COUNT`.
pub open spec fn table_in_range(t: Seq<u32>) -> bool {
    t.len() == POINT_COUNT && forall|i: int| 0 <= i < t.len() ==> #[trigger] t[i] < POINT_COUNT
}

/// An index table is in range.
pub proof fn lemma_index_table_in_range(t: Seq<u32>)
    requires
        is_index_table(t),
    ensures
        table_in_range(t),
{
    broadcast use vstd::seq_lib::to_multiset_contains, vstd::seq_lib::to_multiset_len;

    let id = identity_table(POINT_COUNT as nat);
    assert(t.to_multiset().len() == id.to_multiset().len());
    assert forall|i: int| 0 <= i < t.len() implies #[trigger] t[i] < POINT_COUNT by {
        assert(t.contains(t[i]));
        assert(t.to_multiset().count(t[i]) > 0);
        assert(id.to_multiset().count(t[i]) > 0);
        assert(id.contains(t[i]));
        let j = choose|j: int| 0 <= j < id.len() && id[j] == t[i];
        assert(id[j] == j);
    }
}

/// The table `p` with the entries at the places `i` and `target` exchanged.
pub open spec fn spec_exchange(p: Seq<u32>, i: int, target: int) -> Seq<u32> {
    p.update(i, p[target]).update(target, p[i])
}

/// Exchanges the entries of `p` at the places `i` and `target`. The entries
/// stay the same up to their order.
pub fn exchange(p: &mut Vec<u32>, i: usize, target: usize)
    requires
        i < old(p)@.len(),
        target < old(p)@.len(),
    ensures
        final(p)@ == spec_exchange(old(p)@, i as int, target as int),
        final(p)@.to_multiset() == old(p)@.to_multiset(),
{
    let tmp: u32 = p[i];
    let other: u32 = p[target];
    let ghost before = p@;
    p.set(i, other);
    p.set(target, tmp);
    proof {
        broadcast use vstd::multiset::group_multiset_axioms;

        vstd::seq_lib::to_multiset_contains(before, tmp);
        vstd::seq_lib::to_multiset_contains(before, other);
        assert(before[i as int] == tmp && before[target as int] == other);
        assert(before.contains(tmp) && before.contains(other));
        let mid = before.update(i as int, other);
        vstd::seq_lib::to_multiset_update(before, i as int, other);
        vstd::seq_lib::to_multiset_update(mid, target as int, tmp);
        assert(mid[target as int] == other);
        assert(p@ == mid.update(target as int, tmp));
        assert(p@.to_multiset() =~= before.to_multiset());
    }
}

/// Whether `targets` names, for each of the places below `n`, a place at or
/// before it.
pub open spec fn are_targets(targets: Seq<usize>, n: int) -> bool {
    targets.len() == n && forall|k: int| 0 <= k < n ==> #[trigger] targets[k] <= k
}

/// The table `p` after the places `n - 1` down to `i` have each been
/// exchanged with the place that `targets` names for them, the last place
/// first.
pub open spec fn spec_shuffled(p: Seq<u32>, n: int, i: int, targets: Seq<usize>) -> Seq<u32>
    decreases n - i,
{
    if i >= n {
        p
    } else {
        spec_exchange(spec_shuffled(p, n, i + 1, targets), i, targets[i] as int)
    }
}

/// The shuffle of the places from `i` on looks at no target before `i`.
pub proof fn lemma_shuffled_reads_later_targets(p: Seq<u32>, n: int, i: int, one: Seq<usize>, other: Seq<usize>)
    requires
        0 <= i,
        one.len() == other.len(),
        n <= one.len(),
        forall|k: int| i <= k < n ==> one[k] == other[k],
    ensures
        spec_shuffled(p, n, i, one) == spec_shuffled(p, n, i, other),
    decreases n - i,
{
    if i < n {
        lemma_shuffled_reads_later_targets(p, n, i + 1, one, other);
    }
}

/// The residue of `n` modulo 256, which is `n & 255` in two's complement.
pub open spec fn spec_wrap(n: i64) -> usize {
    (n as int % 256) as usize
}

/// The residue of `n` modulo 256, which is `n & 255` in two's complement.
#[verifier::when_used_as_spec(spec_wrap)]
pub fn wrap(n: i64) -> (r: usize)
    ensures
        r == spec_wrap(n),
        r < 256,
{
    let shifted: u128 = (n as i128 + 0x1_0000_0000_0000_0000) as u128;
    (shifted % 256) as usize
}

/// The weight of a lattice corner along one axis: `s` at the far corner
/// (`far`), `1 - s` at the near one.
pub open spec fn spec_blend(far: bool, s: i64) -> i64 {
    if far {
        s
    } else {
        fsub(ONE, s)
    }
}

/// The weight of a lattice corner along one axis: `s` at the far corner
/// (`far`), `1 - s` at the near one.
#[verifier::when_used_as_spec(spec_blend)]
pub fn blend(far: bool, s: Fixed) -> (r: Fixed)
    ensures
        r == spec_blend(far, s),
{
    if far {
        s
    } else {
        fsub(ONE, s)
    }
}

/// The offset from a lattice corner along one axis: `t - 1` at the far
/// corner, `t` at the near one.
pub open spec fn spec_offset(far: bool, t: i64) -> i64 {
    if far {
        fsub(t, ONE)
    } else {
        t
    }
}

/// The offset from a lattice corner along one axis: `t - 1` at the far
/// corner, `t` at the near one.
#[verifier::when_used_as_spec(spec_offset)]
pub fn offset(far: bool, t: Fixed) -> (r: Fixed)
    ensures
        r == spec_offset(far, t),
{
    if far {
        fsub(t, ONE)
    } else {
        t
    }
}

/// The Hermite smoothing `t * t * (3 - 2 * t)`.
pub open spec fn spec_smooth(t: i64) -> i64 {
    fmul(fmul(t, t), fsub(THREE, fmul(TWO, t)))
}

/// The Hermite smoothing `t * t * (3 - 2 * t)`.
#[verifier::when_used_as_spec(spec_smooth)]
pub fn smooth(t: Fixed) -> (r: Fixed)
    ensures
        r == spec_smooth(t),
{
    fmul(fmul(t, t), fsub(THREE, fmul(TWO, t)))
}

/// The share of one lattice corner in the interpolated noise: the product
/// of its three blend weights and of the dot product of its gradient `g`
/// with the offset from the corner.
pub open spec fn spec_corner_term(g: Vec3, u: i64, v: i64, w: i64, i: bool, j: bool, k: bool) -> i64 {
    let weight = Vec3 { x: offset(i, u), y: offset(j, v), z: offset(k, w) };
    fmul(fmul(fmul(blend(i, smooth(u)), blend(j, smooth(v))), blend(k, smooth(w))), g.dot(weight))
}

/// The share of one lattice corner in the interpolated noise: the product
/// of its three blend weights and of the dot product of its gradient `g`
/// with the offset from the corner.
#[verifier::when_used_as_spec(spec_corner_term)]
pub fn corner_term(g: Vec3, u: Fixed, v: Fixed, w: Fixed, i: bool, j: bool, k: bool) -> (r: Fixed)
    ensures
        r == spec_corner_term(g, u, v, w, i, j, k),
{
    let weight = Vec3 { x: offset(i, u), y: offset(j, v), z: offset(k, w) };
    fmul(fmul(fmul(blend(i, smooth(u)), blend(j, smooth(v))), blend(k, smooth(w))), g.dot(weight))
}

/// Tests whether `t` has `POINT_COUNT` entries, all below `POINT_COUNT`.
pub fn check_table(t: &Vec<u32>) -> (ok: bool)
    ensures
        ok == table_in_range(t@),
{
    if t.len() != POINT_COUNT {
        return false;
    }
    let mut i: usize = 0;
    while i < POINT_COUNT
        invariant
            i <= POINT_COUNT,
            t@.len() == POINT_COUNT,
            forall|k: int| 0 <= k < i ==> #[trigger] t@[k] < POINT_COUNT,
        decreases POINT_COUNT - i,
    {
        if t[i] >= POINT_COUNT as u32 {
            return false;
        }
        i += 1;
    }
    true
}

impl perlin {
    /// Whether the three tables and the gradient list have `POINT_COUNT`
    /// entries and the tables hold indices into the list.
    pub open spec fn wf(&self) -> bool {
        &&& table_in_range(self.perm_x@)
        &&& table_in_range(self.perm_y@)
        &&& table_in_range(self.perm_z@)
        &&& self.randvec@.len() == POINT_COUNT
    }

    /// Tests `wf`.
    pub fn is_well_formed(&self) -> (ok: bool)
        ensures
            ok == self.wf(),
    {
        check_table(&self.perm_x) && check_table(&self.perm_y) && check_table(&self.perm_z) && self.randvec.len()
            == POINT_COUNT
    }

    /// Whether `g` can be a gradient: a point of the cube [-1, 1)^3,
    /// normalized.
    pub open spec fn is_gradient(g: Vec3) -> bool {
        exists|sx: i64, sy: i64, sz: i64|
            #![trigger Vec3::spec_in_cube(NEG_ONE, ONE, sx, sy, sz)]
            0 <= sx < ONE && 0 <= sy < ONE && 0 <= sz < ONE && g == Vec3::spec_in_cube(
                NEG_ONE,
                ONE,
                sx,
                sy,
                sz,
            ).normalize()
    }

    /// Noise with random gradients and three random index tables.
    pub fn new(rng: &mut Sampler) -> (p: perlin)
        ensures
            p.wf(),
            is_index_table(p.perm_x@),
            is_index_table(p.perm_y@),
            is_index_table(p.perm_z@),
            forall|i: int| 0 <= i < p.randvec@.len() ==> Self::is_gradient(#[trigger] p.randvec@[i]),
    {
        let mut randvec: Vec<Vec3> = Vec::new();
        let mut i: usize = 0;
        while i < POINT_COUNT
            invariant
                i <= POINT_COUNT,
                randvec@.len() == i,
                forall|k: int| 0 <= k < randvec@.len() ==> Self::is_gradient(#[trigger] randvec@[k]),
            decreases POINT_COUNT - i,
        {
            randvec.push(Vec3::random_with_range(NEG_ONE, ONE, rng).normalize());
            i += 1;
        }
        let perm_x = Self::perlin_generate_perm(rng);
        let perm_y = Self::perlin_generate_perm(rng);
        let perm_z = Self::perlin_generate_perm(rng);
        proof {
            lemma_index_table_in_range(perm_x@);
            lemma_index_table_in_range(perm_y@);
            lemma_index_table_in_range(perm_z@);
        }
        perlin { perm_x, perm_y, perm_z, randvec }
    }

    /// The gradient at the lattice point `(i, j, k)`: the tables are read
    /// at the three coordinates modulo 256, and the exclusive or of the
    /// entries selects the gradient.
    pub open spec fn spec_gradient(&self, i: i64, j: i64, k: i64) -> Vec3 {
        self.randvec@[(self.perm_x@[wrap(i) as int] ^ self.perm_y@[wrap(j) as int] ^ self.perm_z@[wrap(k) as int]) as int]
    }

    /// The gradient at the lattice point `(i, j, k)`.
    pub fn gradient(&self, i: i64, j: i64, k: i64) -> (g: Vec3)
        requires
            self.wf(),
        ensures
            g == self.spec_gradient(i, j, k),
    {
        let a: u32 = self.perm_x[wrap(i)];
        let b: u32 = self.perm_y[wrap(j)];
        let c: u32 = self.perm_z[wrap(k)];
        assert(a ^ b ^ c < 256) by (bit_vector)
            requires
                a < 256,
                b < 256,
                c < 256,
        ;
        self.randvec[(a ^ b ^ c) as usize]
    }

    /// The eight gradients around the lattice cell whose near corner is
    /// `(i, j, k)`, indexed by the corner's offset along x, y and z.
    pub open spec fn spec_cell(&self, i: i64, j: i64, k: i64) -> [[[Vec3; 2]; 2]; 2] {
        [
            [
                [self.spec_gradient(i, j, k), self.spec_gradient(i, j, (k + 1) as i64)],
                [self.spec_gradient(i, (j + 1) as i64, k), self.spec_gradient(i, (j + 1) as i64, (k + 1) as i64)],
            ],
            [
                [self.spec_gradient((i + 1) as i64, j, k), self.spec_gradient((i + 1) as i64, j, (k + 1) as i64)],
                [
                    self.spec_gradient((i + 1) as i64, (j + 1) as i64, k),
                    self.spec_gradient((i + 1) as i64, (j + 1) as i64, (k + 1) as i64),
                ],
            ],
        ]
    }

    /// The noise value at `p`: the gradients of the lattice cell around `p`
    /// interpolated at the fractional part of `p`.
    #[verifier::opaque]
    pub open spec fn spec_noise(&self, p: &Vec3) -> i64 {
        Self::spec_perlin_interp(
            &self.spec_cell(floor_int(p.x), floor_int(p.y), floor_int(p.z)),
            fsub(p.x, ffloor(p.x)),
            fsub(p.y, ffloor(p.y)),
            fsub(p.z, ffloor(p.z)),
        )
    }

    /// The noise value at `p`.
    pub fn noise(&self, p: &Vec3) -> (n: Fixed)
        requires
            self.wf(),
        ensures
            n == self.spec_noise(p),
    {
        proof {
            reveal(perlin::spec_noise);
        }
        let u: i64 = fsub(p.x, ffloor(p.x));
        let v: i64 = fsub(p.y, ffloor(p.y));
        let w: i64 = fsub(p.z, ffloor(p.z));
        let i: i64 = floor_int(p.x);
        let j: i64 = floor_int(p.y);
        let k: i64 = floor_int(p.z);
        let c: [[[Vec3; 2]; 2]; 2] = [
            [
                [self.gradient(i, j, k), self.gradient(i, j, k + 1)],
                [self.gradient(i, j + 1, k), self.gradient(i, j + 1, k + 1)],
            ],
            [
                [self.gradient(i + 1, j, k), self.gradient(i + 1, j, k + 1)],
                [self.gradient(i + 1, j + 1, k), self.gradient(i + 1, j + 1, k + 1)],
            ],
        ];
        Self::perlin_interp(&c, u, v, w)
    }

    /// The sum over the eight corners of `corner_term`, added up with the
    /// x offset outermost and the z offset innermost.
    pub open spec fn spec_perlin_interp(c: &[[[Vec3; 2]; 2]; 2], u: i64, v: i64, w: i64) -> i64 {
        let a000 = corner_term(c[0][0][0], u, v, w, false, false, false);
        let a001 = corner_term(c[0][0][1], u, v, w, false, false, true);
        let a010 = corner_term(c[0][1][0], u, v, w, false, true, false);
        let a011 = corner_term(c[0][1][1], u, v, w, false, true, true);
        let a100 = corner_term(c[1][0][0], u, v, w, true, false, false);
        let a101 = corner_term(c[1][0][1], u, v, w, true, false, true);
        let a110 = corner_term(c[1][1][0], u, v, w, true, true, false);
        let a111 = corner_term(c[1][1][1], u, v, w, true, true, true);
        fadd(fadd(fadd(fadd(fadd(fadd(fadd(a000, a001), a010), a011), a100), a101), a110), a111)
    }

    /// Interpolates the eight gradients `c` of a lattice cell at the point `(u, v, w)` of the cell.
    pub fn perlin_interp(c: &[[[Vec3; 2]; 2]; 2], u: Fixed, v: Fixed, w: Fixed) -> (r: Fixed)
        ensures
            r == Self::spec_perlin_interp(c, u, v, w),
    {
        let a000: i64 = corner_term(c[0][0][0], u, v, w, false, false, false);
        let a001: i64 = corner_term(c[0][0][1], u, v, w, false, false, true);
        let a010: i64 = corner_term(c[0][1][0], u, v, w, false, true, false);
        let a011: i64 = corner_term(c[0][1][1], u, v, w, false, true, true);
        let a100: i64 = corner_term(c[1][0][0], u, v, w, true, false, false);
        let a101: i64 = corner_term(c[1][0][1], u, v, w, true, false, true);
        let a110: i64 = corner_term(c[1][1][0], u, v, w, true, true, false);
        let a111: i64 = corner_term(c[1][1][1], u, v, w, true, true, true);
        fadd(fadd(fadd(fadd(fadd(fadd(fadd(a000, a001), a010), a011), a100), a101), a110), a111)
    }

    /// The table `0..POINT_COUNT` in a random order.
    pub fn perlin_generate_perm(rng: &mut Sampler) -> (p: Vec<u32>)
        ensures
            p@.len() == POINT_COUNT,
            is_index_table(p@),
    {
        let mut p: Vec<u32> = Vec::new();
        let mut i: usize = 0;
        while i < POINT_COUNT
            invariant
                i <= POINT_COUNT,
                p@ == identity_table(i as nat),
            decreases POINT_COUNT - i,
        {
            p.push(i as u32);
            assert(p@ =~= identity_table((i + 1) as nat));
            i += 1;
        }
        Self::permute(&mut p, POINT_COUNT, rng);
        p
    }

    /// Shuffles the first `n` entries of `p`: from the last entry down, each
    /// is exchanged with a random entry at or before it. The result is
    /// `spec_shuffled` for the places that were drawn, so the entries stay
    /// the same up to their order.
    pub fn permute(p: &mut Vec<u32>, n: usize, rng: &mut Sampler)
        requires
            n <= old(p)@.len(),
        ensures
            exists|targets: Seq<usize>|
                #![trigger spec_shuffled(old(p)@, n as int, 0, targets)]
                are_targets(targets, n as int) && final(p)@ == spec_shuffled(old(p)@, n as int, 0, targets),
            final(p)@.len() == old(p)@.len(),
            final(p)@.to_multiset() == old(p)@.to_multiset(),
            forall|k: int| n <= k < old(p)@.len() ==> final(p)@[k] == old(p)@[k],
    {
        let ghost mut targets: Seq<usize> = Seq::new(n as nat, |k: int| 0usize);
        let mut i: usize = n;
        while i > 0
            invariant
                i <= n <= p@.len(),
                p@.len() == old(p)@.len(),
                p@.to_multiset() == old(p)@.to_multiset(),
                forall|k: int| n <= k < old(p)@.len() ==> p@[k] == old(p)@[k],
                are_targets(targets, n as int),
                p@ == spec_shuffled(old(p)@, n as int, i as int, targets),
            decreases i,
        {
            i -= 1;
            let target: usize = random_int_range(0, i, rng);
            proof {
                let drawn = targets.update(i as int, target);
                lemma_shuffled_reads_later_targets(old(p)@, n as int, i + 1, targets, drawn);
                targets = drawn;
            }
            exchange(p, i, target);
        }
    }

    /// `depth` octaves of noise: octave `n` samples `p * 2^n` with weight
    /// `2^-n`. The result is the magnitude of the sum.
    pub open spec fn spec_turb(&self, p: &Vec3, depth: i32) -> i64 {
        fabs(self.spec_turb_sum(*p, ONE, depth as int))
    }

    /// The sum of the remaining `steps` octaves, starting at point `p` with
    /// weight `weight`; the first octave is added last.
    pub open spec fn spec_turb_sum(&self, p: Vec3, weight: i64, steps: int) -> i64
        decreases steps,
    {
        if steps <= 0 {
            0
        } else {
            self.spec_turb_acc(0, p, weight, steps)
        }
    }

    /// The running sum `accum` after `steps` more octaves.
    pub open spec fn spec_turb_acc(&self, accum: i64, p: Vec3, weight: i64, steps: int) -> i64
        decreases steps,
    {
        if steps <= 0 {
            accum
        } else {
            self.spec_turb_acc(
                fadd(accum, fmul(self.spec_noise(&p), weight)),
                p.scale(TWO),
                fmul(weight, HALF),
                steps - 1,
            )
        }
    }

    /// The magnitude of the sum of `depth` octaves of noise at `p`.
    pub fn turb(&self, p: &Vec3, depth: i32) -> (r: Fixed)
        requires
            self.wf(),
        ensures
            r == self.spec_turb(p, depth),
    {
        let mut accum: i64 = 0;
        let mut temp_p: Vec3 = *p;
        let mut weight: i64 = ONE;
        let mut n: i32 = 0;
        while n < depth
            invariant
                self.wf(),
                0 <= n,
                n <= depth || depth < 0,
                self.spec_turb_acc(accum, temp_p, weight, depth - n) == self.spec_turb_acc(0, *p, ONE, depth as int),
            decreases depth - n,
        {
            accum = fadd(accum, fmul(self.noise(&temp_p), weight));
            weight = fmul(weight, HALF);
            temp_p = temp_p.scale(TWO);
            n += 1;
        }
        fabs(accum)
    }
}
} // verus!
