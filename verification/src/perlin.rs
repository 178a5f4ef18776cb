use vstd::prelude::*;
use vstd::seq_lib::{to_multiset_contains, to_multiset_len, to_multiset_update};
use crate::util::random_int;
use crate::vec3::Vec3;

verus! {

/// The number of lattice gradients, and of entries in each permutation table.
pub const POINT_COUNT: usize = 256;

/// Whether `p` holds each number below `POINT_COUNT` exactly once.
pub open spec fn is_permutation(p: Seq<usize>) -> bool {
    &&& p.len() == POINT_COUNT
    &&& p.no_duplicates()
    &&& forall|i: int| 0 <= i < p.len() ==> #[trigger] p[i] < POINT_COUNT
    &&& forall|v: usize| v < POINT_COUNT ==> #[trigger] p.contains(v)
}

/// The numbers below `POINT_COUNT` in ascending order.
pub open spec fn identity() -> Seq<usize> {
    Seq::new(POINT_COUNT as nat, |i: int| i as usize)
}

/// `s` with the entries at `i` and `j` in each other's place.
pub open spec fn swapped(s: Seq<usize>, i: int, j: int) -> Seq<usize> {
    s.update(i, s[j]).update(j, s[i])
}

/// Whether `draws` can be the draws of a shuffle of `n` entries: one draw
/// for each place, at that place or before it.
pub open spec fn draws_for(draws: Seq<usize>, n: nat) -> bool {
    &&& draws.len() == n
    &&& forall|i: int| 0 <= i < n ==> #[trigger] draws[i] <= i
}

/// `s` after the steps of a shuffle for the places from the last down to
/// `from`: at each place `i` the entry changes places with the one at
/// `draws[i]`.
pub open spec fn shuffled_from(s: Seq<usize>, draws: Seq<usize>, from: int) -> Seq<usize>
    decreases s.len() - from,
{
    if from >= s.len() {
        s
    } else {
        swapped(shuffled_from(s, draws, from + 1), from, draws[from] as int)
    }
}

/// Whether `after` is what a shuffle with the draws `draws` makes of
/// `before`.
pub open spec fn shuffles(before: Seq<usize>, draws: Seq<usize>, after: Seq<usize>) -> bool {
    draws_for(draws, before.len()) && after == shuffled_from(before, draws, 0)
}

/// A lattice coordinate folded into the tables: its remainder by
/// `POINT_COUNT`, which is never negative.
pub open spec fn fold(coordinate: int) -> int {
    coordinate % (POINT_COUNT as int)
}

/// The permutation tables and lattice gradients of gradient noise.
pub struct Perlin {
    ranvec: Vec<Vec3>,
    perm_x: Vec<usize>,
    perm_y: Vec<usize>,
    perm_z: Vec<usize>,
}

impl Perlin {
    #[verifier::type_invariant]
    spec fn well_formed(self) -> bool {
        &&& self.ranvec@.len() == POINT_COUNT
        &&& is_permutation(self.perm_x@)
        &&& is_permutation(self.perm_y@)
        &&& is_permutation(self.perm_z@)
    }

    /// The gradients, by their place in the table.
    pub closed spec fn gradients(self) -> Seq<Vec3> {
        self.ranvec@
    }

    /// The permutation table of axis `a`: 0 is x, 1 is y, anything else is z.
    pub closed spec fn table(self, a: int) -> Seq<usize> {
        if a == 0 {
            self.perm_x@
        } else if a == 1 {
            self.perm_y@
        } else {
            self.perm_z@
        }
    }

    /// The place in the gradient table of the lattice point `(i, j, k)`.
    pub open spec fn slot(self, i: int, j: int, k: int) -> usize {
        self.table(0)[fold(i)] ^ self.table(1)[fold(j)] ^ self.table(2)[fold(k)]
    }

    /// The gradient of the lattice point `(i, j, k)`.
    pub open spec fn gradient(self, i: int, j: int, k: int) -> Vec3 {
        self.gradients()[self.slot(i, j, k) as int]
    }

    /// Three fresh permutation tables around the given gradients; `None`
    /// unless there are `POINT_COUNT` gradients.
    pub fn new(ranvec: Vec<Vec3>) -> (noise: Option<Perlin>)
        ensures
            noise.is_some() <==> ranvec@.len() == POINT_COUNT,
            noise matches Some(p) ==> {
                &&& p.gradients() == ranvec@
                &&& is_permutation(p.table(0))
                &&& is_permutation(p.table(1))
                &&& is_permutation(p.table(2))
            },
    {
        if ranvec.len() != POINT_COUNT {
            return None;
        }
        let perm_x = Perlin::perlin_generate_perm();
        let perm_y = Perlin::perlin_generate_perm();
        let perm_z = Perlin::perlin_generate_perm();
        Some(Perlin { ranvec, perm_x, perm_y, perm_z })
    }

    /// The noise of the given gradients and permutation tables; `None`
    /// unless there are `POINT_COUNT` gradients and each table is a
    /// permutation.
    pub fn from_tables(
        ranvec: Vec<Vec3>,
        perm_x: Vec<usize>,
        perm_y: Vec<usize>,
        perm_z: Vec<usize>,
    ) -> (noise: Option<Perlin>)
        ensures
            noise.is_some() <==> ranvec@.len() == POINT_COUNT && is_permutation(perm_x@)
                && is_permutation(perm_y@) && is_permutation(perm_z@),
            noise matches Some(p) ==> {
                &&& p.gradients() == ranvec@
                &&& p.table(0) == perm_x@
                &&& p.table(1) == perm_y@
                &&& p.table(2) == perm_z@
            },
    {
        if ranvec.len() != POINT_COUNT {
            return None;
        }
        if !check_permutation(&perm_x) || !check_permutation(&perm_y) || !check_permutation(
            &perm_z,
        ) {
            return None;
        }
        Some(Perlin { ranvec, perm_x, perm_y, perm_z })
    }

    /// A random permutation of the numbers below `POINT_COUNT`.
    pub fn perlin_generate_perm() -> (p: Vec<usize>)
        ensures
            is_permutation(p@),
    {
        let mut p: Vec<usize> = Vec::new();
        let mut i: usize = 0;
        while i < POINT_COUNT
            invariant
                i <= POINT_COUNT,
                p@.len() == i,
                forall|k: int| 0 <= k < i ==> p@[k] == k,
            decreases POINT_COUNT - i,
        {
            p.push(i);
            i += 1;
        }
        assert(p@ =~= identity());
        Perlin::permute(&mut p);
        proof {
            lemma_identity_is_permutation();
            lemma_shuffled_permutation(identity(), p@);
        }
        p
    }

    /// Shuffles `p`: from the last place down, each entry changes places
    /// with one drawn at random from those at or before it. Whatever is
    /// drawn, the entries are the same as before, and `p` is what these
    /// steps make of it for the draws that came.
    pub fn permute(p: &mut Vec<usize>)
        ensures
            final(p)@.len() == old(p)@.len(),
            final(p)@.to_multiset() == old(p)@.to_multiset(),
            exists|draws: Seq<usize>| #[trigger] shuffles(old(p)@, draws, final(p)@),
    {
        let n: usize = p.len();
        let ghost mut draws: Seq<usize> = Seq::new(n as nat, |k: int| k as usize);
        let mut i: usize = n;
        while i > 0
            invariant
                i <= n,
                n == p@.len(),
                p@.len() == old(p)@.len(),
                p@.to_multiset() == old(p)@.to_multiset(),
                draws_for(draws, n as nat),
                p@ == shuffled_from(old(p)@, draws, i as int),
            decreases i,
        {
            i -= 1;
            let target: usize = random_int(0, i);
            proof {
                let earlier = draws;
                draws = draws.update(i as int, target);
                lemma_later_draws_decide(old(p)@, earlier, draws, i as int + 1);
            }
            Perlin::swap_entries(p, i, target);
        }
        assert(shuffles(old(p)@, draws, p@));
    }

    /// Lets the entries at `i` and `j` change places.
    pub fn swap_entries(p: &mut Vec<usize>, i: usize, j: usize)
        requires
            i < old(p)@.len(),
            j < old(p)@.len(),
        ensures
            final(p)@ == old(p)@.update(i as int, old(p)@[j as int]).update(
                j as int,
                old(p)@[i as int],
            ),
            final(p)@.to_multiset() == old(p)@.to_multiset(),
    {
        let a: usize = p[i];
        let b: usize = p[j];
        p.set(i, b);
        p.set(j, a);
        proof {
            let s0 = old(p)@;
            let s1 = s0.update(i as int, b);
            to_multiset_update(s0, i as int, b);
            to_multiset_update(s1, j as int, a);
            to_multiset_contains(s0, a);
            to_multiset_contains(s0, b);
            assert(s0.contains(a)) by {
                assert(s0[i as int] == a);
            }
            assert(s0.contains(b)) by {
                assert(s0[j as int] == b);
            }
            assert(p@.to_multiset() =~= s0.to_multiset());
        }
    }

    /// The gradient of the lattice point `(i, j, k)`: the tables are read at
    /// the folded coordinates and the three entries combined bit by bit.
    pub fn corner(&self, i: i64, j: i64, k: i64) -> (g: Vec3)
        ensures
            g == self.gradient(i as int, j as int, k as int),
    {
        proof {
            use_type_invariant(self);
        }
        let x: usize = self.perm_x[fold_coordinate(i)];
        let y: usize = self.perm_y[fold_coordinate(j)];
        let z: usize = self.perm_z[fold_coordinate(k)];
        assert(x ^ y ^ z < 256) by (bit_vector)
            requires
                x < 256,
                y < 256,
                z < 256,
        ;
        self.ranvec[x ^ y ^ z]
    }

    /// The gradients of the eight corners of the lattice cell whose least
    /// corner is `(i, j, k)`, the corner `(i + di, j + dj, k + dk)` at place
    /// `4 * di + 2 * dj + dk`.
    pub fn corners(&self, i: i32, j: i32, k: i32) -> (c: Vec<Vec3>)
        ensures
            c@.len() == 8,
            forall|di: int, dj: int, dk: int|
                0 <= di < 2 && 0 <= dj < 2 && 0 <= dk < 2 ==> #[trigger] c@[4 * di + 2 * dj + dk]
                    == self.gradient(i + di, j + dj, k + dk),
    {
        let mut c: Vec<Vec3> = Vec::new();
        let mut n: usize = 0;
        while n < 8
            invariant
                n <= 8,
                c@.len() == n,
                forall|m: int|
                    0 <= m < n ==> #[trigger] c@[m] == self.gradient(
                        i + m / 4,
                        j + (m / 2) % 2,
                        k + m % 2,
                    ),
            decreases 8 - n,
        {
            let di: i64 = (n / 4) as i64;
            let dj: i64 = ((n / 2) % 2) as i64;
            let dk: i64 = (n % 2) as i64;
            let g = self.corner(i as i64 + di, j as i64 + dj, k as i64 + dk);
            c.push(g);
            n += 1;
        }
        assert forall|di: int, dj: int, dk: int|
            0 <= di < 2 && 0 <= dj < 2 && 0 <= dk < 2 implies #[trigger] c@[4 * di + 2 * dj + dk]
            == self.gradient(i + di, j + dj, k + dk) by {
            let m = 4 * di + 2 * dj + dk;
            assert(m / 4 == di && (m / 2) % 2 == dj && m % 2 == dk);
        }
        c
    }
}

/// Whether `p` holds each number below `POINT_COUNT` exactly once.
pub fn check_permutation(p: &Vec<usize>) -> (ok: bool)
    ensures
        ok == is_permutation(p@),
{
    if p.len() != POINT_COUNT {
        return false;
    }
    let mut seen: Vec<bool> = Vec::new();
    let mut v: usize = 0;
    while v < POINT_COUNT
        invariant
            v <= POINT_COUNT,
            seen@.len() == v,
            forall|w: int| 0 <= w < v ==> !seen@[w],
        decreases POINT_COUNT - v,
    {
        seen.push(false);
        v += 1;
    }
    let mut i: usize = 0;
    while i < POINT_COUNT
        invariant
            i <= POINT_COUNT,
            p@.len() == POINT_COUNT,
            seen@.len() == POINT_COUNT,
            forall|k: int| 0 <= k < i ==> #[trigger] p@[k] < POINT_COUNT,
            forall|k: int, l: int| 0 <= k < l < i ==> p@[k] != p@[l],
            forall|w: int|
                0 <= w < POINT_COUNT ==> (#[trigger] seen@[w] <==> exists|k: int|
                    0 <= k < i && #[trigger] p@[k] == w),
        decreases POINT_COUNT - i,
    {
        let value: usize = p[i];
        if value >= POINT_COUNT {
            return false;
        }
        if seen[value] {
            proof {
                let k = choose|k: int| 0 <= k < i && #[trigger] p@[k] == value;
                assert(p@[k] == p@[i as int]);
            }
            return false;
        }
        let ghost before = seen@;
        seen.set(value, true);
        proof {
            assert forall|w: int| 0 <= w < POINT_COUNT implies (#[trigger] seen@[w] <==> exists|
                k: int,
            |
                0 <= k < i + 1 && #[trigger] p@[k] == w) by {
                if w == value {
                    assert(p@[i as int] == w);
                } else {
                    if before[w] {
                        let k = choose|k: int| 0 <= k < i && #[trigger] p@[k] == w;
                        assert(0 <= k < i + 1 && p@[k] == w);
                    }
                    if exists|k: int| 0 <= k < i + 1 && #[trigger] p@[k] == w {
                        let k = choose|k: int| 0 <= k < i + 1 && #[trigger] p@[k] == w;
                        assert(k != i);
                        assert(0 <= k < i && p@[k] == w);
                    }
                }
            }
        }
        i += 1;
    }
    let mut w: usize = 0;
    while w < POINT_COUNT
        invariant
            w <= POINT_COUNT,
            p@.len() == POINT_COUNT,
            seen@.len() == POINT_COUNT,
            forall|u: usize| u < w ==> #[trigger] p@.contains(u),
            forall|u: int|
                0 <= u < POINT_COUNT ==> (#[trigger] seen@[u] <==> exists|k: int|
                    0 <= k < POINT_COUNT && #[trigger] p@[k] == u),
        decreases POINT_COUNT - w,
    {
        if !seen[w] {
            proof {
                if p@.contains(w) {
                    let k = choose|k: int| 0 <= k < p@.len() && p@[k] == w;
                    assert(0 <= k < POINT_COUNT && p@[k] == w);
                }
            }
            return false;
        }
        proof {
            let k = choose|k: int| 0 <= k < POINT_COUNT && #[trigger] p@[k] == w;
            assert(p@[k] == w);
        }
        w += 1;
    }
    true
}

/// A lattice coordinate folded into the tables.
pub fn fold_coordinate(coordinate: i64) -> (place: usize)
    ensures
        place == fold(coordinate as int),
        place < POINT_COUNT,
{
    let low: i64 = coordinate % 256;
    if low < 0 {
        (low + 256) as usize
    } else {
        low as usize
    }
}

/// The steps of a shuffle from a place on depend only on the draws for that
/// place and the later ones.
pub proof fn lemma_later_draws_decide(
    s: Seq<usize>,
    draws: Seq<usize>,
    other: Seq<usize>,
    from: int,
)
    requires
        0 <= from,
        draws.len() == other.len(),
        forall|i: int| from <= i < draws.len() ==> draws[i] == other[i],
        s.len() <= draws.len(),
    ensures
        shuffled_from(s, draws, from) == shuffled_from(s, other, from),
    decreases s.len() - from,
{
    if from < s.len() {
        lemma_later_draws_decide(s, draws, other, from + 1);
    }
}

/// The numbers in ascending order are a permutation.
pub proof fn lemma_identity_is_permutation()
    ensures
        is_permutation(identity()),
{
    let s = identity();
    assert forall|v: usize| v < POINT_COUNT implies #[trigger] s.contains(v) by {
        assert(s[v as int] == v);
    }
}

/// A permutation stays one when its entries change places.
pub proof fn lemma_shuffled_permutation(before: Seq<usize>, after: Seq<usize>)
    requires
        is_permutation(before),
        after.to_multiset() == before.to_multiset(),
    ensures
        is_permutation(after),
{
    to_multiset_len(before);
    to_multiset_len(after);
    before.lemma_multiset_has_no_duplicates();
    after.lemma_multiset_has_no_duplicates_conv();
    assert forall|i: int| 0 <= i < after.len() implies #[trigger] after[i] < POINT_COUNT by {
        let v = after[i];
        assert(after.contains(v));
        to_multiset_contains(after, v);
        to_multiset_contains(before, v);
        let k = choose|k: int| 0 <= k < before.len() && before[k] == v;
        assert(before[k] < POINT_COUNT);
    }
    assert forall|v: usize| v < POINT_COUNT implies #[trigger] after.contains(v) by {
        assert(before.contains(v));
        to_multiset_contains(after, v);
        to_multiset_contains(before, v);
    }
}

} // verus!
