//! Scoring by directions: a match is given as the lengths of the runs found
//! in each of four directions, and its points are their product. Sums and
//! products wrap around at their widths, as in a release build.

use vstd::prelude::*;

verus! {

/// What a scoring by directions holds.
pub struct ScoreState {
    pub score: u32,
    pub max_combo: u16,
    pub highscore: u32,
    pub accumulated_points: u16,
    pub cascade_count: u8,
}

/// Score, highest combo and highscore, with the points of the current cascade.
pub struct Scoring {
    score: u32,
    max_combo: u16,
    highscore: u32,
    accumulated_points: u16,
    cascade_count: u8,
}

impl View for Scoring {
    type V = ScoreState;

    closed spec fn view(&self) -> ScoreState {
        ScoreState {
            score: self.score,
            max_combo: self.max_combo,
            highscore: self.highscore,
            accumulated_points: self.accumulated_points,
            cascade_count: self.cascade_count,
        }
    }
}

/// A factor of a product of the non-zero entries: the entry, or 1 for 0.
pub open spec fn nonzero_factor(p: u16) -> u16 {
    if p > 0 {
        p
    } else {
        1
    }
}

/// The points of one direction: the product of its non-zero run lengths
/// (wrapping at 16 bits), or 0 where that product is 1.
pub open spec fn direction_points(d: Seq<u8>) -> u16 {
    let product = nonzero_factor(d[0] as u16).wrapping_mul(nonzero_factor(d[1] as u16)).wrapping_mul(
        nonzero_factor(d[2] as u16),
    ).wrapping_mul(nonzero_factor(d[3] as u16));
    if product == 1 {
        0
    } else {
        product
    }
}

/// The points of a match: the product of the non-zero points of its
/// directions (wrapping at 16 bits).
pub open spec fn match_points(points: Seq<Seq<u8>>) -> u16 {
    nonzero_factor(direction_points(points[0])).wrapping_mul(nonzero_factor(direction_points(points[1]))).wrapping_mul(
        nonzero_factor(direction_points(points[2])),
    ).wrapping_mul(nonzero_factor(direction_points(points[3])))
}

/// The multiplier of the `n`-th match of a cascade: 1, 3, 4, 5, ...
pub open spec fn cascade_multiplier(n: u8) -> u16 {
    if n == 1 {
        1
    } else {
        (1 + n) as u16
    }
}

/// What adding a match does to the scoring.
pub open spec fn after_add(s: ScoreState, points: Seq<Seq<u8>>) -> ScoreState {
    let count = s.cascade_count.wrapping_add(1);
    let calculated = match_points(points).wrapping_mul(cascade_multiplier(count));
    let accumulated = s.accumulated_points.wrapping_add(calculated);
    let score = s.score.wrapping_add(accumulated as u32);
    ScoreState {
        score,
        max_combo: if accumulated > s.max_combo {
            accumulated
        } else {
            s.max_combo
        },
        highscore: if score > s.highscore {
            score
        } else {
            s.highscore
        },
        accumulated_points: accumulated,
        cascade_count: count,
    }
}

impl Scoring {
    /// A scoring with nothing scored.
    pub fn new() -> (s: Scoring)
        ensures
            s@ == (ScoreState { score: 0, max_combo: 0, highscore: 0, accumulated_points: 0, cascade_count: 0 }),
    {
        Scoring { score: 0, max_combo: 0, highscore: 0, accumulated_points: 0, cascade_count: 0 }
    }

    /// The points of one direction.
    fn direction_points(direction: [u8; 4]) -> (p: u16)
        ensures
            p == direction_points(direction@),
    {
        let mut product: u16 = 1;
        let mut i: usize = 0;
        while i < 4
            invariant
                i <= 4,
                product == (if i == 0 {
                    1u16
                } else if i == 1 {
                    nonzero_factor(direction@[0] as u16)
                } else if i == 2 {
                    nonzero_factor(direction@[0] as u16).wrapping_mul(nonzero_factor(direction@[1] as u16))
                } else if i == 3 {
                    nonzero_factor(direction@[0] as u16).wrapping_mul(nonzero_factor(direction@[1] as u16)).wrapping_mul(
                        nonzero_factor(direction@[2] as u16),
                    )
                } else {
                    nonzero_factor(direction@[0] as u16).wrapping_mul(nonzero_factor(direction@[1] as u16)).wrapping_mul(
                        nonzero_factor(direction@[2] as u16),
                    ).wrapping_mul(nonzero_factor(direction@[3] as u16))
                }),
            decreases 4 - i,
        {
            let p = direction[i];
            if p > 0 {
                product = product.wrapping_mul(p as u16);
            } else {
                product = product.wrapping_mul(1);
            }
            i = i + 1;
        }
        if product == 1 {
            0
        } else {
            product
        }
    }

    /// Adds a match, given as the run lengths found in each of four
    /// directions: the product of the directions' points, times the cascade
    /// multiplier, is added to the cascade's points, and those to the score;
    /// the highest combo and the highscore follow.
    pub fn add(&mut self, points: [[u8; 4]; 4])
        ensures
            final(self)@ == after_add(old(self)@, seq![points[0]@, points[1]@, points[2]@, points[3]@]),
    {
        let ghost all = seq![points[0]@, points[1]@, points[2]@, points[3]@];
        let d0 = Self::direction_points(points[0]);
        let d1 = Self::direction_points(points[1]);
        let d2 = Self::direction_points(points[2]);
        let d3 = Self::direction_points(points[3]);
        let f0: u16 = if d0 > 0 { d0 } else { 1 };
        let f1: u16 = if d1 > 0 { d1 } else { 1 };
        let f2: u16 = if d2 > 0 { d2 } else { 1 };
        let f3: u16 = if d3 > 0 { d3 } else { 1 };
        let product = f0.wrapping_mul(f1).wrapping_mul(f2).wrapping_mul(f3);
        assert(product == match_points(all));

        let cascade_multiplier = self.calculate_cascade_multiplier();
        let calculated_points = product.wrapping_mul(cascade_multiplier);

        self.accumulated_points = self.accumulated_points.wrapping_add(calculated_points);
        self.score = self.score.wrapping_add(self.accumulated_points as u32);
        if self.accumulated_points > self.max_combo {
            self.max_combo = self.accumulated_points;
        }
        if self.score > self.highscore {
            self.highscore = self.score;
        }
    }

    /// The score.
    pub fn score(&self) -> (r: u32)
        ensures
            r == self@.score,
    {
        self.score
    }

    /// The highest points gathered by one cascade.
    pub fn max_combo(&self) -> (r: u16)
        ensures
            r == self@.max_combo,
    {
        self.max_combo
    }

    /// The highscore.
    pub fn highscore(&self) -> (r: u32)
        ensures
            r == self@.highscore,
    {
        self.highscore
    }

    /// Ends the current cascade.
    pub fn break_cascade_sequence(&mut self)
        ensures
            final(self)@ == (ScoreState { accumulated_points: 0, cascade_count: 0, ..old(self)@ }),
    {
        self.accumulated_points = 0;
        self.cascade_count = 0;
    }

    /// Counts one more match in the cascade and gives its multiplier.
    fn calculate_cascade_multiplier(&mut self) -> (m: u16)
        ensures
            final(self)@ == (ScoreState { cascade_count: old(self)@.cascade_count.wrapping_add(1), ..old(self)@ }),
            m == cascade_multiplier(old(self)@.cascade_count.wrapping_add(1)),
    {
        self.cascade_count = self.cascade_count.wrapping_add(1);
        if self.cascade_count == 1 {
            return 1;
        }
        1 + self.cascade_count as u16
    }
}

/// Whether `points` holds a run of length `a` at slot `s1` of direction
/// `d1`, one of length `b` at slot `s2` of direction `d2`, and nothing else.
pub open spec fn only_runs(points: Seq<Seq<u8>>, d1: int, s1: int, a: u8, d2: int, s2: int, b: u8) -> bool {
    &&& points.len() == 4
    &&& forall|i: int| 0 <= i < 4 ==> (#[trigger] points[i]).len() == 4
    &&& forall|i: int, j: int|
        0 <= i < 4 && 0 <= j < 4 ==> #[trigger] points[i][j] == (if i == d1 && j == s1 {
            a
        } else if i == d2 && j == s2 {
            b
        } else {
            0
        })
}

proof fn lemma_wrapping_mul_small(x: u16, y: u16)
    requires
        x * y <= u16::MAX,
    ensures
        x.wrapping_mul(y) == x * y,
{
    assert((x as nat * y as nat) % 65536 == x * y);
}

/// The points of a direction holding one run of length `r` (or none, for
/// `r` 0): `r` for a run of two or more, else 0.
proof fn lemma_direction_with_one_run(d: Seq<u8>, s: int, r: u8)
    requires
        d.len() == 4,
        0 <= s < 4,
        forall|j: int| 0 <= j < 4 ==> #[trigger] d[j] == (if j == s { r } else { 0 }),
    ensures
        direction_points(d) == (if r >= 2 { r as u16 } else { 0 }),
{
    assert(d[0] == (if s == 0 { r } else { 0 }));
    assert(d[1] == (if s == 1 { r } else { 0 }));
    assert(d[2] == (if s == 2 { r } else { 0 }));
    assert(d[3] == (if s == 3 { r } else { 0 }));
    let one = 1u16;
    let rr = nonzero_factor(r as u16);
    lemma_wrapping_mul_small(one, one);
    lemma_wrapping_mul_small(one, rr);
    lemma_wrapping_mul_small(rr, one);
}

/// The points of a match are the product over all four directions: a single
/// run of `r >= 2` in any direction, at any slot, scores `r`; two such runs
/// in different directions score the product of their lengths.
pub proof fn lemma_match_points_multiply_directions(points: Seq<Seq<u8>>, d1: int, s1: int, a: u8, d2: int, s2: int, b: u8)
    requires
        0 <= d1 < 4,
        0 <= s1 < 4,
        0 <= d2 < 4,
        0 <= s2 < 4,
        a >= 2,
        only_runs(points, d1, s1, a, d2, s2, b),
        d1 != d2,
    ensures
        b == 0 ==> match_points(points) == a,
        b >= 2 ==> match_points(points) == a * b,
{
    assert forall|i: int| 0 <= i < 4 implies #[trigger] direction_points(points[i]) == (if i == d1 {
        a as u16
    } else if i == d2 && b >= 2 {
        b as u16
    } else {
        0
    }) by {
        let di = points[i];
        assert(di.len() == 4);
        if i == d1 {
            assert forall|j: int| 0 <= j < 4 implies #[trigger] di[j] == (if j == s1 { a } else { 0 }) by {
                assert(points[i][j] == di[j]);
            }
            lemma_direction_with_one_run(di, s1, a);
        } else if i == d2 {
            assert forall|j: int| 0 <= j < 4 implies #[trigger] di[j] == (if j == s2 { b } else { 0 }) by {
                assert(points[i][j] == di[j]);
            }
            lemma_direction_with_one_run(di, s2, b);
        } else {
            assert forall|j: int| 0 <= j < 4 implies #[trigger] di[j] == (if j == 0 { 0u8 } else { 0 }) by {
                assert(points[i][j] == di[j]);
            }
            lemma_direction_with_one_run(di, 0, 0);
        }
    }
    let g0 = nonzero_factor(direction_points(points[0]));
    let g1 = nonzero_factor(direction_points(points[1]));
    let g2 = nonzero_factor(direction_points(points[2]));
    let g3 = nonzero_factor(direction_points(points[3]));
    let bb: u16 = if b >= 2 { b as u16 } else { 1 };
    assert(direction_points(points[0]) == (if 0 == d1 { a as u16 } else if 0 == d2 && b >= 2 { b as u16 } else { 0 }));
    assert(direction_points(points[1]) == (if 1 == d1 { a as u16 } else if 1 == d2 && b >= 2 { b as u16 } else { 0 }));
    assert(direction_points(points[2]) == (if 2 == d1 { a as u16 } else if 2 == d2 && b >= 2 { b as u16 } else { 0 }));
    assert(direction_points(points[3]) == (if 3 == d1 { a as u16 } else if 3 == d2 && b >= 2 { b as u16 } else { 0 }));
    assert(a * bb <= u16::MAX) by (nonlinear_arith)
        requires
            a <= 255,
            bb <= 255,
    ;
    assert(g0 * g1 * g2 * g3 == a * bb) by (nonlinear_arith)
        requires
            (d1 == 0 && g0 == a) || (d1 == 1 && g1 == a) || (d1 == 2 && g2 == a) || (d1 == 3 && g3 == a),
            (d2 == 0 && g0 == bb) || (d2 == 1 && g1 == bb) || (d2 == 2 && g2 == bb) || (d2 == 3 && g3 == bb),
            d1 != d2,
            0 <= d1 < 4,
            0 <= d2 < 4,
            d1 == 0 || d2 == 0 || g0 == 1,
            d1 == 1 || d2 == 1 || g1 == 1,
            d1 == 2 || d2 == 2 || g2 == 1,
            d1 == 3 || d2 == 3 || g3 == 1,
    ;
    assert(g0 >= 1 && g1 >= 1 && g2 >= 1 && g3 >= 1);
    assert(g0 * g1 <= g0 * g1 * g2 * g3 && g0 * g1 * g2 <= g0 * g1 * g2 * g3) by (nonlinear_arith)
        requires
            g0 >= 1,
            g1 >= 1,
            g2 >= 1,
            g3 >= 1,
    ;
    lemma_wrapping_mul_small(g0, g1);
    let p01 = g0.wrapping_mul(g1);
    assert(p01 * g2 == g0 * g1 * g2) by (nonlinear_arith)
        requires
            p01 == g0 * g1,
    ;
    lemma_wrapping_mul_small(p01, g2);
    let p012 = p01.wrapping_mul(g2);
    assert(p012 * g3 == g0 * g1 * g2 * g3) by (nonlinear_arith)
        requires
            p012 == g0 * g1 * g2,
    ;
    lemma_wrapping_mul_small(p012, g3);
}

/// A first match on a fresh scoring adds its points to the score: a single
/// run of `r >= 2` in any direction scores `r`.
pub proof fn lemma_first_run_scores_its_length(points: Seq<Seq<u8>>, d: int, s: int, r: u8, other: int)
    requires
        0 <= d < 4,
        0 <= s < 4,
        0 <= other < 4,
        other != d,
        r >= 2,
        only_runs(points, d, s, r, other, 0, 0),
    ensures
        match_points(points) == r,
        after_add(
            ScoreState { score: 0, max_combo: 0, highscore: 0, accumulated_points: 0, cascade_count: 0 },
            points,
        ).score == r,
{
    lemma_match_points_multiply_directions(points, d, s, r, other, 0, 0);
    lemma_wrapping_mul_small(r as u16, 1);
}

} // verus!
