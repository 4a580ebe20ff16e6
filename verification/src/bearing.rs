//! Bearings and the eight compass points.
//!
//! A bearing is a single-precision number, held as its bit pattern: one sign
//! bit, eight exponent bits and 23 fraction bits. The model reads
//! the pattern as the number it stands for and compares that number with the
//! bounds of the compass points, which are odd multiples of 22.5 degrees.
//! The executable code compares bit patterns and is proved to agree.

use vstd::arithmetic::power2::{
    lemma2_to64, lemma_pow2_adds, lemma_pow2_pos, lemma_pow2_strictly_increases,
    lemma_pow2_unfold, pow2,
};
use vstd::prelude::*;

verus! {

/// The eight compass points.
#[derive(Clone, Copy, Debug, PartialEq, Eq, Structural)]
pub enum Compass {
    North,
    NorthEast,
    East,
    SouthEast,
    South,
    SouthWest,
    West,
    NorthWest,
}

/// The sign bit is set.
pub open spec fn is_negative(bits: u32) -> bool {
    bits >= 0x8000_0000
}

/// The pattern without its sign bit.
pub open spec fn magnitude_bits(bits: u32) -> int {
    bits as int % 0x8000_0000
}

/// The eight exponent bits.
pub open spec fn exponent_of(bits: u32) -> int {
    magnitude_bits(bits) / 0x80_0000
}

/// The 23 fraction bits.
pub open spec fn fraction_of(bits: u32) -> int {
    magnitude_bits(bits) % 0x80_0000
}

/// The pattern stands for no number.
pub open spec fn is_nan(bits: u32) -> bool {
    exponent_of(bits) == 255 && fraction_of(bits) != 0
}

/// The pattern stands for an infinity.
pub open spec fn is_infinite(bits: u32) -> bool {
    exponent_of(bits) == 255 && fraction_of(bits) == 0
}

/// For a pattern that stands for a finite number `x`: the integer
/// `|x| * 2^149`. With exponent bits `e > 0` and fraction bits `f`,
/// `|x| = (2^23 + f) * 2^(e - 150)`; with `e = 0`, `|x| = f * 2^(-149)`.
pub open spec fn scaled_magnitude(bits: u32) -> int {
    if exponent_of(bits) == 0 {
        fraction_of(bits)
    } else {
        (0x80_0000 + fraction_of(bits)) * pow2((exponent_of(bits) - 1) as nat)
    }
}

/// The pattern stands for a number under `halves / 2`, for `halves > 0`.
/// What stands for no number is under nothing; a negative number, zero with
/// the sign bit set and negative infinity are under every positive bound.
pub open spec fn is_below(bits: u32, halves: int) -> bool {
    &&& !is_nan(bits)
    &&& is_negative(bits) || (!is_infinite(bits) && scaled_magnitude(bits) < halves * pow2(148))
}

/// The compass point of a bearing in degrees: each point takes the 45
/// degrees around its own direction, the lower bound included, the upper
/// bound not. North takes what is under 22.5 and what is not under 337.5,
/// and with it every pattern that stands for no bearing.
pub open spec fn compass_of(bits: u32) -> Compass {
    if is_below(bits, 45) {
        Compass::North
    } else if is_below(bits, 135) {
        Compass::NorthEast
    } else if is_below(bits, 225) {
        Compass::East
    } else if is_below(bits, 315) {
        Compass::SouthEast
    } else if is_below(bits, 405) {
        Compass::South
    } else if is_below(bits, 495) {
        Compass::SouthWest
    } else if is_below(bits, 585) {
        Compass::West
    } else if is_below(bits, 675) {
        Compass::NorthWest
    } else {
        Compass::North
    }
}

/// The label of a compass point.
pub open spec fn label_of(point: Compass) -> Seq<char> {
    match point {
        Compass::North => "N"@,
        Compass::NorthEast => "NE"@,
        Compass::East => "E"@,
        Compass::SouthEast => "SE"@,
        Compass::South => "S"@,
        Compass::SouthWest => "SW"@,
        Compass::West => "W"@,
        Compass::NorthWest => "NW"@,
    }
}

/// What is under a bound is under every larger bound.
pub proof fn lemma_below_larger_bound(bits: u32, low: int, high: int)
    requires
        low <= high,
    ensures
        is_below(bits, low) ==> is_below(bits, high),
{
    lemma_pow2_pos(148);
    let p = pow2(148) as int;
    assert(low * p <= high * p) by (nonlinear_arith)
        requires
            low <= high,
            p > 0,
    ;
}

/// Each compass point other than north is one range of bearings, from its
/// lower bound, which it includes, to its upper bound, which it does not;
/// north is what is under 22.5 degrees together with what is not under 337.5.
pub proof fn lemma_compass_ranges(bits: u32)
    ensures
        compass_of(bits) == Compass::North <==> is_below(bits, 45) || !is_below(bits, 675),
        compass_of(bits) == Compass::NorthEast <==> !is_below(bits, 45) && is_below(bits, 135),
        compass_of(bits) == Compass::East <==> !is_below(bits, 135) && is_below(bits, 225),
        compass_of(bits) == Compass::SouthEast <==> !is_below(bits, 225) && is_below(bits, 315),
        compass_of(bits) == Compass::South <==> !is_below(bits, 315) && is_below(bits, 405),
        compass_of(bits) == Compass::SouthWest <==> !is_below(bits, 405) && is_below(bits, 495),
        compass_of(bits) == Compass::West <==> !is_below(bits, 495) && is_below(bits, 585),
        compass_of(bits) == Compass::NorthWest <==> !is_below(bits, 585) && is_below(bits, 675),
{
    lemma_below_larger_bound(bits, 45, 135);
    lemma_below_larger_bound(bits, 135, 225);
    lemma_below_larger_bound(bits, 225, 315);
    lemma_below_larger_bound(bits, 315, 405);
    lemma_below_larger_bound(bits, 405, 495);
    lemma_below_larger_bound(bits, 495, 585);
    lemma_below_larger_bound(bits, 585, 675);
}

/// Among the patterns of finite numbers that are not negative, a smaller
/// pattern stands for a smaller number.
pub proof fn lemma_scaled_increases(a: u32, b: u32)
    requires
        a < b < 0x7f80_0000,
    ensures
        scaled_magnitude(a) < scaled_magnitude(b),
{
    let ea = exponent_of(a);
    let fa = fraction_of(a);
    let eb = exponent_of(b);
    let fb = fraction_of(b);
    assert(a == ea * 0x80_0000 + fa);
    assert(b == eb * 0x80_0000 + fb);
    assert(ea <= eb);
    if ea == eb {
        if ea != 0 {
            let p = pow2((ea - 1) as nat) as int;
            lemma_pow2_pos((ea - 1) as nat);
            assert((0x80_0000 + fa) * p < (0x80_0000 + fb) * p) by (nonlinear_arith)
                requires
                    fa < fb,
                    p > 0,
            ;
        }
    } else {
        let pb = pow2((eb - 1) as nat) as int;
        lemma_pow2_pos((eb - 1) as nat);
        assert(0x80_0000 * pb <= (0x80_0000 + fb) * pb) by (nonlinear_arith)
            requires
                0 <= fb,
                pb > 0,
        ;
        if ea == 0 {
            assert(0x80_0000 <= 0x80_0000 * pb) by (nonlinear_arith)
                requires
                    pb >= 1,
            ;
        } else {
            let pa = pow2((ea - 1) as nat) as int;
            lemma_pow2_pos((ea - 1) as nat);
            lemma_pow2_unfold(ea as nat);
            if ea < eb - 1 {
                lemma_pow2_strictly_increases(ea as nat, (eb - 1) as nat);
            }
            assert(2 * pa <= pb);
            assert((0x80_0000 + fa) * pa < 0x80_0000 * pb) by (nonlinear_arith)
                requires
                    0 <= fa < 0x80_0000,
                    pa > 0,
                    2 * pa <= pb,
            ;
        }
    }
}

/// Where `bound` is the pattern of the positive number `halves / 2`, a
/// pattern stands for a number under `halves / 2` exactly if it stands for a
/// number and either has the sign bit set or is a smaller pattern than
/// `bound`.
pub proof fn lemma_below_by_pattern(bits: u32, bound: u32, halves: int)
    requires
        bound < 0x7f80_0000,
        scaled_magnitude(bound) == halves * pow2(148),
    ensures
        is_below(bits, halves) <==> !is_nan(bits) && (is_negative(bits) || bits < bound),
{
    if bits < 0x7f80_0000 {
        if bits < bound {
            lemma_scaled_increases(bits, bound);
        } else if bound < bits {
            lemma_scaled_increases(bound, bits);
        }
    }
}

/// The pattern `bound`, with exponent bits `e > 0`, stands for `halves / 2`
/// where `2^23` and its fraction bits make `halves * 2^(149 - e)`.
pub proof fn lemma_bound_pattern(bound: u32, halves: int, shift: nat)
    requires
        0x80_0000 <= bound < 0x7f80_0000,
        shift + exponent_of(bound) == 149,
        0x80_0000 + fraction_of(bound) == halves * pow2(shift),
    ensures
        scaled_magnitude(bound) == halves * pow2(148),
{
    let rest = (exponent_of(bound) - 1) as nat;
    lemma_pow2_adds(shift, rest);
    assert(halves * pow2(shift) * pow2(rest) == halves * (pow2(shift) * pow2(rest)))
        by (nonlinear_arith);
}

/// Whether `bits` stands for a number under the one that `bound` stands for.
fn below_pattern(bits: u32, bound: u32, Ghost(halves): Ghost<int>) -> (below: bool)
    requires
        bound < 0x7f80_0000,
        scaled_magnitude(bound) == halves * pow2(148),
    ensures
        below == is_below(bits, halves),
{
    proof {
        lemma_below_by_pattern(bits, bound, halves);
    }
    let magnitude: u32 = bits % 0x8000_0000;
    magnitude <= 0x7f80_0000 && (bits >= 0x8000_0000 || bits < bound)
}

impl Compass {
    /// The point's label: one or two of the letters N, E, S, W.
    pub fn label(&self) -> (text: &'static str)
        ensures
            text@ == label_of(*self),
    {
        match self {
            Compass::North => "N",
            Compass::NorthEast => "NE",
            Compass::East => "E",
            Compass::SouthEast => "SE",
            Compass::South => "S",
            Compass::SouthWest => "SW",
            Compass::West => "W",
            Compass::NorthWest => "NW",
        }
    }
}

/// The upper bound of the range at place `k` round the compass, counted
/// from north, in halves of a degree: 22.5 degrees and 45 more for each place.
pub open spec fn bound_halves(k: int) -> int {
    45 + 90 * k
}

/// The compass point at place `k` round the compass, counted from north.
pub open spec fn point_at(k: int) -> Compass {
    if k == 1 {
        Compass::NorthEast
    } else if k == 2 {
        Compass::East
    } else if k == 3 {
        Compass::SouthEast
    } else if k == 4 {
        Compass::South
    } else if k == 5 {
        Compass::SouthWest
    } else if k == 6 {
        Compass::West
    } else if k == 7 {
        Compass::NorthWest
    } else {
        Compass::North
    }
}

/// The ranges round the compass: the bit pattern of each upper bound, and
/// the point under it.
fn compass_table() -> (table: [(u32, Compass); 8])
    ensures
        forall|k: int|
            0 <= k < 8 ==> (#[trigger] table[k]).0 < 0x7f80_0000 && scaled_magnitude(table[k].0)
                == bound_halves(k) * pow2(148) && table[k].1 == point_at(k),
{
    let table = [
        (0x41b4_0000u32, Compass::North),
        (0x4287_0000u32, Compass::NorthEast),
        (0x42e1_0000u32, Compass::East),
        (0x431d_8000u32, Compass::SouthEast),
        (0x434a_8000u32, Compass::South),
        (0x4377_8000u32, Compass::SouthWest),
        (0x4392_4000u32, Compass::West),
        (0x43a8_c000u32, Compass::NorthWest),
    ];
    proof {
        lemma2_to64();
        lemma_bound_pattern(0x41b4_0000, 45, 18);
        lemma_bound_pattern(0x4287_0000, 135, 16);
        lemma_bound_pattern(0x42e1_0000, 225, 16);
        lemma_bound_pattern(0x431d_8000, 315, 15);
        lemma_bound_pattern(0x434a_8000, 405, 15);
        lemma_bound_pattern(0x4377_8000, 495, 15);
        lemma_bound_pattern(0x4392_4000, 585, 14);
        lemma_bound_pattern(0x43a8_c000, 675, 14);
    }
    table
}

/// The compass point of the bearing whose bit pattern is `bits`.
pub fn compass_point(bits: u32) -> (point: Compass)
    ensures
        point == compass_of(bits),
{
    let table = compass_table();
    let mut k: usize = 0;
    while k < 8
        invariant
            k <= 8,
            forall|j: int|
                0 <= j < 8 ==> (#[trigger] table[j]).0 < 0x7f80_0000 && scaled_magnitude(
                    table[j].0,
                ) == bound_halves(j) * pow2(148) && table[j].1 == point_at(j),
            forall|j: int| 0 <= j < k ==> !is_below(bits, #[trigger] bound_halves(j)),
        decreases 8 - k,
    {
        let (bound, point) = table[k];
        if below_pattern(bits, bound, Ghost(bound_halves(k as int))) {
            proof {
                lemma_compass_at(bits, k as int);
            }
            return point;
        }
        k += 1;
    }
    proof {
        lemma_compass_at(bits, 8);
    }
    Compass::North
}

/// Going round the compass from north, a bearing has the point of the first
/// range whose upper bound it is under, and north where it is under none.
pub proof fn lemma_compass_at(bits: u32, k: int)
    requires
        0 <= k <= 8,
        forall|j: int| 0 <= j < k ==> !is_below(bits, #[trigger] bound_halves(j)),
        k < 8 ==> is_below(bits, bound_halves(k)),
    ensures
        compass_of(bits) == point_at(k),
{
    assert(bound_halves(0) == 45);
    assert(bound_halves(1) == 135);
    assert(bound_halves(2) == 225);
    assert(bound_halves(3) == 315);
    assert(bound_halves(4) == 405);
    assert(bound_halves(5) == 495);
    assert(bound_halves(6) == 585);
    assert(bound_halves(7) == 675);
}

} // verus!
