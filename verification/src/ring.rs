//! Winding order of a vertex ring: the signed shoelace sum, the test for
//! clockwise order, and the counterclockwise, closed ring handed to output.

use vstd::prelude::*;

verus! {

/// A geographic position, longitude first. Both coordinates count units of
/// 10^-12 degree.
#[derive(Clone, Copy, Debug, PartialEq, Eq, Structural)]
pub struct Vertex {
    pub lon: i64,
    pub lat: i64,
}

/// The contribution of the edge from `a` to `b` to the shoelace sum.
pub open spec fn edge_term(a: Vertex, b: Vertex) -> int {
    (b.lon - a.lon) * (b.lat + a.lat)
}

/// The sum of the first `k` edge terms of the ring `s`, where edge `i` runs
/// from vertex `i` to vertex `(i + 1) % s.len()`.
pub open spec fn winding_partial(s: Seq<Vertex>, k: nat) -> int
    decreases k,
{
    if k == 0 {
        0
    } else {
        winding_partial(s, (k - 1) as nat) + edge_term(s[k - 1], s[(k as int) % (s.len() as int)])
    }
}

/// The signed shoelace sum over all edges of the ring, the closing edge from
/// the last vertex back to the first included. It is positive for a clockwise
/// ring, and zero or negative for a counterclockwise or degenerate one.
pub open spec fn winding_sum(s: Seq<Vertex>) -> int {
    winding_partial(s, s.len())
}

/// The ring in counterclockwise order: reversed when it runs clockwise,
/// unchanged otherwise.
pub open spec fn normalized(s: Seq<Vertex>) -> Seq<Vertex> {
    if winding_sum(s) > 0 {
        s.reverse()
    } else {
        s
    }
}

/// The ring with its first vertex repeated at the end; the empty ring stays
/// empty.
pub open spec fn closed(s: Seq<Vertex>) -> Seq<Vertex> {
    if s.len() == 0 {
        s
    } else {
        s.push(s[0])
    }
}

/// Two to the power 128, one more than the largest `u128`.
spec fn limb() -> int {
    0x1_0000_0000_0000_0000_0000_0000_0000_0000int
}

/// A non-negative total too large for one machine word: `carries` whole limbs
/// and a remainder below one limb.
struct Tally {
    carries: usize,
    low: u128,
}

impl Tally {
    /// The number that the tally stands for.
    spec fn total(self) -> int {
        self.carries * limb() + self.low
    }

    /// Adds `m` to the tally.
    fn add_magnitude(&mut self, m: u128)
        requires
            old(self).carries < usize::MAX,
        ensures
            final(self).total() == old(self).total() + m,
            final(self).carries <= old(self).carries + 1,
    {
        let room: u128 = u128::MAX - self.low;
        if m <= room {
            self.low = self.low + m;
        } else {
            self.low = m - room - 1;
            self.carries = self.carries + 1;
        }
    }

    /// Tells whether this tally stands for more than the other.
    fn exceeds(&self, other: &Tally) -> (more: bool)
        ensures
            more == (self.total() > other.total()),
    {
        if self.carries != other.carries {
            self.carries > other.carries
        } else {
            self.low > other.low
        }
    }
}

/// The size of `v` without its sign.
fn magnitude(v: i128) -> (m: u128)
    requires
        v > i128::MIN,
    ensures
        m == if v < 0 { -v } else { v as int },
{
    if v < 0 {
        (-v) as u128
    } else {
        v as u128
    }
}

/// The vertex after the last is the first; after any other, the next.
proof fn lemma_next_index(i: int, n: int)
    requires
        0 <= i < n,
    ensures
        (i + 1) % n == if i + 1 == n { 0 } else { i + 1 },
{
    if i + 1 == n {
        vstd::arithmetic::div_mod::lemma_mod_self_0(n);
    } else {
        vstd::arithmetic::div_mod::lemma_small_mod((i + 1) as nat, n as nat);
    }
}

/// The size of an edge term is the product of the sizes of its factors and
/// fits one limb; its sign is that of the product of their signs.
proof fn lemma_term_magnitude(dx: int, sy: int, adx: int, asy: int)
    by (nonlinear_arith)
    requires
        adx == if dx < 0 { -dx } else { dx },
        asy == if sy < 0 { -sy } else { sy },
        adx < 0x1_0000_0000_0000_0000,
        asy <= 0x1_0000_0000_0000_0000,
    ensures
        0 <= adx * asy < limb(),
        (dx < 0) != (sy < 0) ==> dx * sy == -(adx * asy),
        (dx < 0) == (sy < 0) ==> dx * sy == adx * asy,
{
}

/// Tells whether the ring runs clockwise, that is, whether its signed
/// shoelace sum is positive. The sum is formed exactly, whatever the
/// coordinates and however many vertices there are.
pub fn is_clockwise(coordinates: &Vec<Vertex>) -> (clockwise: bool)
    ensures
        clockwise == (winding_sum(coordinates@) > 0),
{
    let n = coordinates.len();
    let mut gained = Tally { carries: 0, low: 0 };
    let mut lost = Tally { carries: 0, low: 0 };
    let mut i: usize = 0;
    while i < n
        invariant
            i <= n,
            n == coordinates.len(),
            gained.carries <= i,
            lost.carries <= i,
            gained.total() - lost.total() == winding_partial(coordinates@, i as nat),
        decreases n - i,
    {
        let j: usize = if i + 1 == n { 0 } else { i + 1 };
        let a = coordinates[i];
        let b = coordinates[j];
        let dx: i128 = b.lon as i128 - a.lon as i128;
        let sy: i128 = b.lat as i128 + a.lat as i128;
        let adx = magnitude(dx);
        let asy = magnitude(sy);
        proof {
            lemma_next_index(i as int, n as int);
            lemma_term_magnitude(dx as int, sy as int, adx as int, asy as int);
            assert(edge_term(a, b) == dx * sy);
        }
        let m: u128 = adx * asy;
        if (dx < 0) != (sy < 0) {
            lost.add_magnitude(m);
        } else {
            gained.add_magnitude(m);
        }
        i = i + 1;
    }
    gained.exceeds(&lost)
}

/// The vertices in reverse order.
fn reversed(coordinates: &Vec<Vertex>) -> (out: Vec<Vertex>)
    ensures
        out@ == coordinates@.reverse(),
{
    let n = coordinates.len();
    let mut out: Vec<Vertex> = Vec::with_capacity(n);
    let mut i: usize = n;
    while i > 0
        invariant
            i <= n,
            n == coordinates.len(),
            out.len() == n - i,
            forall|k: int| 0 <= k < out.len() ==> out[k] == coordinates[n - 1 - k],
        decreases i,
    {
        i = i - 1;
        out.push(coordinates[i]);
    }
    out
}

/// Brings the ring into counterclockwise order: a clockwise ring comes back
/// reversed, any other ring comes back as it is.
pub fn normalize(coordinates: &Vec<Vertex>) -> (ring: Vec<Vertex>)
    ensures
        ring@ == normalized(coordinates@),
        winding_sum(ring@) <= 0,
{
    proof {
        lemma_normalized_winding(coordinates@);
    }
    if is_clockwise(coordinates) {
        reversed(coordinates)
    } else {
        coordinates.clone()
    }
}

/// The ring for the polygon output: counterclockwise, and closed by a copy of
/// its first vertex at the end. An empty input gives an empty ring.
pub fn polygon_ring(coordinates: &Vec<Vertex>) -> (ring: Vec<Vertex>)
    ensures
        ring@ == closed(normalized(coordinates@)),
        ring.len() > 0 ==> ring@.first() == ring@.last(),
{
    let mut ring = normalize(coordinates);
    if ring.len() > 0 {
        let first = ring[0];
        ring.push(first);
    }
    ring
}

/// An edge walked backwards contributes the negated term.
proof fn lemma_edge_antisymmetric(a: Vertex, b: Vertex)
    ensures
        edge_term(b, a) == -edge_term(a, b),
{
    assert((a.lon - b.lon) * (a.lat + b.lat) == -((b.lon - a.lon) * (b.lat + a.lat)))
        by (nonlinear_arith);
}

/// The first `k` edges of the reversed ring are the last `k` open edges of
/// the ring, each walked backwards.
proof fn lemma_reverse_partial(s: Seq<Vertex>, k: nat)
    requires
        k < s.len(),
    ensures
        winding_partial(s.reverse(), k) == -(winding_partial(s, (s.len() - 1) as nat)
            - winding_partial(s, (s.len() - 1 - k) as nat)),
    decreases k,
{
    if k > 0 {
        let n = s.len() as int;
        let r = s.reverse();
        lemma_reverse_partial(s, (k - 1) as nat);
        lemma_next_index(k - 1, n);
        lemma_next_index(n - 1 - k, n);
        lemma_edge_antisymmetric(s[n - 1 - k], s[n - k]);
        assert(r[k - 1] == s[n - k]);
        assert(r[k as int] == s[n - 1 - k]);
    }
}

/// Reversing a ring negates its signed shoelace sum.
pub proof fn lemma_reverse_negates_winding(s: Seq<Vertex>)
    ensures
        winding_sum(s.reverse()) == -winding_sum(s),
{
    if s.len() > 0 {
        let n = s.len() as int;
        let r = s.reverse();
        lemma_reverse_partial(s, (n - 1) as nat);
        lemma_next_index(n - 1, n);
        lemma_edge_antisymmetric(s[n - 1], s[0]);
        assert(r[n - 1] == s[0]);
        assert(r[0] == s[n - 1]);
    }
}

/// After normalization the signed shoelace sum of any ring is zero or
/// negative: the ring is counterclockwise or degenerate.
pub proof fn lemma_normalized_winding(s: Seq<Vertex>)
    ensures
        winding_sum(normalized(s)) <= 0,
{
    lemma_reverse_negates_winding(s);
}

/// Normalization leaves a ring that is already counterclockwise or degenerate
/// as it is, so normalizing twice gives what normalizing once gives.
pub proof fn lemma_normalize_idempotent(s: Seq<Vertex>)
    ensures
        winding_sum(s) <= 0 ==> normalized(s) == s,
        normalized(normalized(s)) == normalized(s),
{
    lemma_normalized_winding(s);
}

/// The polygon ring of a non-empty vertex sequence ends with the vertex it
/// starts with.
pub proof fn lemma_polygon_ring_closes(s: Seq<Vertex>)
    requires
        s.len() > 0,
    ensures
        closed(normalized(s)).len() == s.len() + 1,
        closed(normalized(s)).first() == closed(normalized(s)).last(),
{
}

/// The path output and the polygon output describe the same vertices in the
/// same order: the polygon ring is the path ring followed by the closing copy
/// of its first vertex.
pub proof fn lemma_outputs_agree(s: Seq<Vertex>)
    ensures
        s.len() == 0 ==> closed(normalized(s)) == normalized(s),
        s.len() > 0 ==> closed(normalized(s)).drop_last() == normalized(s),
        normalized(s).len() == s.len(),
{
    if s.len() > 0 {
        assert(closed(normalized(s)).drop_last() =~= normalized(s));
    }
}

} // verus!
