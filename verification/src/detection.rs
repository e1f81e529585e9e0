use vstd::prelude::*;
use crate::trig::sin_cos_q16;
use crate::trig::cos_q16_spec;
use crate::trig::sin_q16_spec;
use crate::geometry::trunc_div_signed;

verus! {

broadcast use vstd::seq_lib::group_to_multiset_ensures, vstd::multiset::group_multiset_axioms;

/// A raw line from the line detector, in polar form: signed perpendicular
/// distance from the origin in whole pixels, and the clockwise angle of that
/// perpendicular in whole degrees, below 180.
#[derive(Clone, Copy, PartialEq, Eq, Structural, Debug)]
pub struct RawLine {
    pub r: i64,
    pub angle_in_degrees: u32,
}

/// A classified line: its own slope angle in thousandths of a degree, and
/// the number of edge pixels sampled on it within the image.
#[derive(Clone, Copy, PartialEq, Eq, Structural, Debug)]
pub struct DetectedLine {
    pub angle_millideg: i64,
    pub length: u64,
}

/// A line value the classification stages accept: angle within a half turn,
/// support length bounded by the largest image extent.
pub open spec fn line_wf(l: DetectedLine) -> bool {
    &&& -180000 <= l.angle_millideg <= 180000
    &&& l.length <= 0x100000000
}

/// An angle in thousandths of a degree folded into [-90000, 90000] by
/// half-turn steps.
pub open spec fn norm_half_turn(a: int) -> int
    decreases
            (if a >= 0 {
                a
            } else {
                -a
            }),
{
    if a > 90000 {
        norm_half_turn(a - 180000)
    } else if a < -90000 {
        norm_half_turn(a + 180000)
    } else {
        a
    }
}

/// Convert a detector angle (whole degrees, the direction of the line's
/// perpendicular) into the slope angle of the line itself, in thousandths
/// of a degree, normalized into [-90000, 90000].
pub fn polar_to_angle_millideg(angle_in_degrees: u32) -> (r: i64)
    requires
        angle_in_degrees <= 100000,
    ensures
        r == norm_half_turn(angle_in_degrees * 1000 - 90000),
        -90000 <= r <= 90000,
{
    let mut a: i64 = (angle_in_degrees as i64) * 1000 - 90000;
    while a > 90000
        invariant
            -90000 <= a <= 100001000,
            norm_half_turn(a as int) == norm_half_turn(angle_in_degrees * 1000 - 90000),
        decreases a + 90000,
    {
        a = a - 180000;
    }
    while a < -90000
        invariant
            -180000 <= a <= 90000,
            norm_half_turn(a as int) == norm_half_turn(angle_in_degrees * 1000 - 90000),
        decreases 90000 - a,
    {
        a = a + 180000;
    }
    a
}

/// The line slopes leftward: down-left to up-right in image coordinates.
pub open spec fn in_left_range(l: DetectedLine) -> bool {
    -60000 <= l.angle_millideg <= -15000
}

/// The line slopes rightward.
pub open spec fn in_right_range(l: DetectedLine) -> bool {
    15000 <= l.angle_millideg <= 60000
}

/// Partition classified lines into the left-sloping class (slope in
/// [-60, -15] degrees) and the right-sloping class (slope in [15, 60]
/// degrees); near-horizontal and near-vertical lines are discarded.
pub fn classify_lines(lines: &Vec<DetectedLine>) -> (r: (Vec<DetectedLine>, Vec<DetectedLine>))
    ensures
        r.0@ == lines@.filter(|l: DetectedLine| in_left_range(l)),
        r.1@ == lines@.filter(|l: DetectedLine| in_right_range(l)),
{
    let mut left: Vec<DetectedLine> = Vec::new();
    let mut right: Vec<DetectedLine> = Vec::new();
    let mut i: usize = 0;
    proof {
        assert(lines@.take(0int) =~= Seq::<DetectedLine>::empty());
        assert(Seq::<DetectedLine>::empty().filter(|l: DetectedLine| in_left_range(l))
            =~= Seq::<DetectedLine>::empty()) by {
            reveal(Seq::filter);
        }
        assert(Seq::<DetectedLine>::empty().filter(|l: DetectedLine| in_right_range(l))
            =~= Seq::<DetectedLine>::empty()) by {
            reveal(Seq::filter);
        }
    }
    while i < lines.len()
        invariant
            i <= lines.len(),
            left@ == lines@.take(i as int).filter(|l: DetectedLine| in_left_range(l)),
            right@ == lines@.take(i as int).filter(|l: DetectedLine| in_right_range(l)),
        decreases lines.len() - i,
    {
        let l = lines[i];
        proof {
            let lp = |l: DetectedLine| in_left_range(l);
            let rp = |l: DetectedLine| in_right_range(l);
            assert(lines@.take(i + 1) =~= lines@.take(i as int) + seq![lines@[i as int]]);
            Seq::<DetectedLine>::filter_distributes_over_add(
                lines@.take(i as int),
                seq![lines@[i as int]],
                lp,
            );
            Seq::<DetectedLine>::filter_distributes_over_add(
                lines@.take(i as int),
                seq![lines@[i as int]],
                rp,
            );
            assert(seq![lines@[i as int]].drop_last() =~= Seq::<DetectedLine>::empty());
            assert(seq![lines@[i as int]].filter(lp) =~= (if lp(lines@[i as int]) {
                seq![lines@[i as int]]
            } else {
                Seq::<DetectedLine>::empty()
            })) by {
                reveal_with_fuel(Seq::filter, 2);
            }
            assert(seq![lines@[i as int]].filter(rp) =~= (if rp(lines@[i as int]) {
                seq![lines@[i as int]]
            } else {
                Seq::<DetectedLine>::empty()
            })) by {
                reveal_with_fuel(Seq::filter, 2);
            }
        }
        if l.angle_millideg >= -60000 && l.angle_millideg <= -15000 {
            left.push(l);
        } else if l.angle_millideg >= 15000 && l.angle_millideg <= 60000 {
            right.push(l);
        }
        proof {
            assert(left@ =~= lines@.take(i + 1).filter(|l: DetectedLine| in_left_range(l)));
            assert(right@ =~= lines@.take(i + 1).filter(|l: DetectedLine| in_right_range(l)));
        }
        i += 1;
    }
    proof {
        assert(lines@.take(lines@.len() as int) =~= lines@);
    }
    (left, right)
}

/// Total support length of a sequence of classified lines.
pub open spec fn seq_weight(s: Seq<DetectedLine>) -> int
    decreases s.len(),
{
    if s.len() == 0 {
        0
    } else {
        seq_weight(s.drop_last()) + s.last().length
    }
}

proof fn lemma_weight_push(s: Seq<DetectedLine>, v: DetectedLine)
    ensures
        seq_weight(s.push(v)) == seq_weight(s) + v.length,
{
    assert(s.push(v).drop_last() =~= s);
    assert(s.push(v).last() == v);
}

proof fn lemma_weight_remove(s: Seq<DetectedLine>, i: int)
    requires
        0 <= i < s.len(),
    ensures
        seq_weight(s.remove(i)) == seq_weight(s) - s[i].length,
    decreases s.len(),
{
    if i == s.len() - 1 {
        assert(s.remove(i) =~= s.drop_last());
    } else {
        assert(s.remove(i).drop_last() =~= s.drop_last().remove(i));
        assert(s.remove(i).last() == s.last());
        lemma_weight_remove(s.drop_last(), i);
    }
}

proof fn lemma_weight_bound(s: Seq<DetectedLine>)
    requires
        forall|i: int| 0 <= i < s.len() ==> #[trigger] line_wf(s[i]),
    ensures
        0 <= seq_weight(s) <= s.len() * 0x100000000,
    decreases s.len(),
{
    if s.len() == 0 {
    } else {
        assert(forall|i: int|
            0 <= i < s.drop_last().len() ==> #[trigger] line_wf(s.drop_last()[i]));
        lemma_weight_bound(s.drop_last());
        assert(line_wf(s.last()));
        assert((s.len() - 1) * 0x100000000 + 0x100000000 == s.len() * 0x100000000)
            by (nonlinear_arith);
    }
}

/// The lines are ordered by slope angle, ascending.
pub open spec fn sorted_by_angle(s: Seq<DetectedLine>) -> bool {
    forall|i: int, j: int|
        0 <= i < j < s.len() ==> #[trigger] s[i].angle_millideg <= #[trigger] s[j].angle_millideg
}

/// Order a class of lines by slope angle, ascending; the result holds
/// exactly the same lines.
fn sort_by_angle(lines: &Vec<DetectedLine>) -> (out: Vec<DetectedLine>)
    ensures
        sorted_by_angle(out@),
        out@.to_multiset() == lines@.to_multiset(),
        out@.len() == lines@.len(),
        seq_weight(out@) == seq_weight(lines@),
        forall|i: int| 0 <= i < out@.len() ==> lines@.contains(#[trigger] out@[i]),
{
    let mut rest: Vec<DetectedLine> = Vec::new();
    let mut k: usize = 0;
    while k < lines.len()
        invariant
            k <= lines.len(),
            rest@ == lines@.take(k as int),
        decreases lines.len() - k,
    {
        rest.push(lines[k]);
        proof {
            assert(lines@.take(k + 1) =~= lines@.take(k as int).push(lines@[k as int]));
        }
        k += 1;
    }
    proof {
        assert(lines@.take(lines@.len() as int) =~= lines@);
    }

    let mut out: Vec<DetectedLine> = Vec::new();
    while rest.len() > 0
        invariant
            out@.to_multiset().add(rest@.to_multiset()) == lines@.to_multiset(),
            out@.len() + rest@.len() == lines@.len(),
            seq_weight(out@) + seq_weight(rest@) == seq_weight(lines@),
            sorted_by_angle(out@),
            forall|i: int, j: int|
                0 <= i < out@.len() && 0 <= j < rest@.len() ==> #[trigger] out@[i].angle_millideg
                    <= #[trigger] rest@[j].angle_millideg,
        decreases rest.len(),
    {
        let mut jmin: usize = 0;
        let mut j: usize = 1;
        while j < rest.len()
            invariant
                jmin < rest@.len(),
                j <= rest@.len(),
                rest@.len() > 0,
                forall|t: int|
                    0 <= t < j ==> rest@[jmin as int].angle_millideg <= (#[trigger] rest@[t]).angle_millideg,
            decreases rest.len() - j,
        {
            if rest[j].angle_millideg < rest[jmin].angle_millideg {
                jmin = j;
            }
            j += 1;
        }
        let ghost old_rest = rest@;
        let ghost old_out = out@;
        let v = rest.remove(jmin);
        out.push(v);
        proof {
            lemma_weight_push(old_out, v);
            lemma_weight_remove(old_rest, jmin as int);
            assert(out@ == old_out.push(v));
            assert(rest@ == old_rest.remove(jmin as int));
            assert(out@.to_multiset() =~= old_out.to_multiset().insert(v));
            assert(rest@.to_multiset() =~= old_rest.to_multiset().remove(v));
            assert(old_rest.contains(v));
            assert(old_rest.to_multiset().count(v) >= 1);
            assert(out@.to_multiset().add(rest@.to_multiset()) =~= lines@.to_multiset()) by {
                let m = lines@.to_multiset();
                assert(old_out.to_multiset().add(old_rest.to_multiset()) == m);
                assert forall|x: DetectedLine|
                    out@.to_multiset().add(rest@.to_multiset()).count(x) == m.count(x) by {
                    assert(old_out.to_multiset().add(old_rest.to_multiset()).count(x) == m.count(
                        x,
                    ));
                }
            }
            assert forall|i2: int, j2: int|
                0 <= i2 < out@.len() && 0 <= j2 < rest@.len() implies (#[trigger] out@[i2]).angle_millideg
                <= (#[trigger] rest@[j2]).angle_millideg by {
                if j2 < jmin {
                    assert(rest@[j2] == old_rest[j2]);
                } else {
                    assert(rest@[j2] == old_rest[j2 + 1]);
                }
            }
        }
    }
    proof {
        assert(rest@ =~= Seq::<DetectedLine>::empty());
        assert(out@.to_multiset() =~= lines@.to_multiset());
        assert forall|i: int| 0 <= i < out@.len() implies lines@.contains(#[trigger] out@[i]) by {
            assert(out@.to_multiset().count(out@[i]) > 0);
        }
    }
    out
}

/// Walk a sorted class, accumulating support weight from `cum` at index `i`:
/// the first angle at which twice the accumulated weight reaches the total.
pub open spec fn walk_median(s: Seq<DetectedLine>, i: int, cum: int, total: int) -> Option<int>
    decreases s.len() - i,
{
    if i < 0 || i >= s.len() {
        None
    } else {
        let c2 = cum + s[i].length;
        if 2 * c2 >= total {
            Some(s[i].angle_millideg as int)
        } else {
            walk_median(s, i + 1, c2, total)
        }
    }
}

/// Confidence, in thousandths: the total support weight of the class against
/// one hundred per line, saturating at one.
pub open spec fn confidence_spec(total: int, count: int) -> int {
    let c = (total * 10) / count;
    if c > 1000 {
        1000
    } else {
        c
    }
}

/// The weighted median holds of a result angle: some angle-sorted ordering
/// of the class reaches half the total support weight exactly there.
pub open spec fn is_weighted_median(lines: Seq<DetectedLine>, angle: int) -> bool {
    exists|t: Seq<DetectedLine>|
        t.to_multiset() == lines.to_multiset() && sorted_by_angle(t) && walk_median(
            t,
            0,
            0,
            seq_weight(lines),
        ) == Some(angle)
}

proof fn lemma_weight_take_step(s: Seq<DetectedLine>, i: int)
    requires
        0 <= i < s.len(),
    ensures
        seq_weight(s.take(i + 1)) == seq_weight(s.take(i)) + s[i].length,
{
    assert(s.take(i + 1).drop_last() =~= s.take(i));
    assert(s.take(i + 1).last() == s[i]);
}

/// Robust central angle of one class of lines: the support-weighted median
/// of the slope angles, with a saturating confidence in thousandths.
/// `None` means the class is empty or has no support at all. The
/// accumulation provably reaches half the total weight, so no fallback
/// estimate is ever needed.
pub fn weighted_median(lines: &Vec<DetectedLine>) -> (r: Option<(i64, u32)>)
    requires
        forall|i: int| 0 <= i < lines@.len() ==> #[trigger] line_wf(lines@[i]),
        lines@.len() <= 0x1000000,
    ensures
        match r {
            None => lines@.len() == 0 || seq_weight(lines@) == 0,
            Some((angle, conf)) => {
                &&& lines@.len() > 0
                &&& seq_weight(lines@) > 0
                &&& is_weighted_median(lines@, angle as int)
                &&& conf == confidence_spec(seq_weight(lines@), lines@.len() as int)
                &&& -180000 <= angle <= 180000
                &&& conf <= 1000
            },
        },
{
    if lines.len() == 0 {
        return None;
    }
    proof {
        lemma_weight_bound(lines@);
        assert(lines@.len() * 0x100000000 <= 0x1000000 * 0x100000000) by (nonlinear_arith)
            requires
                lines@.len() <= 0x1000000,
        ;
    }
    let mut total: u64 = 0;
    let mut k: usize = 0;
    while k < lines.len()
        invariant
            k <= lines@.len(),
            forall|i: int| 0 <= i < lines@.len() ==> #[trigger] line_wf(lines@[i]),
            lines@.len() <= 0x1000000,
            total == seq_weight(lines@.take(k as int)),
            total <= 0x1000000000000000,
        decreases lines.len() - k,
    {
        proof {
            lemma_weight_take_step(lines@, k as int);
            lemma_weight_bound(lines@.take(k + 1));
            assert(lines@.take(k + 1).len() * 0x100000000 <= 0x1000000 * 0x100000000)
                by (nonlinear_arith)
                requires
                    lines@.take(k + 1).len() <= 0x1000000,
            ;
        }
        total = total + lines[k].length;
        k += 1;
    }
    proof {
        assert(lines@.take(lines@.len() as int) =~= lines@);
    }
    if total == 0 {
        return None;
    }

    let sorted = sort_by_angle(lines);
    let ghost t = sorted@;
    let count = lines.len();

    let mut cum: u64 = 0;
    let mut i: usize = 0;
    while i < sorted.len()
        invariant
            i <= sorted@.len(),
            sorted@ == t,
            sorted@.len() == lines@.len(),
            forall|k2: int| 0 <= k2 < lines@.len() ==> #[trigger] line_wf(lines@[k2]),
            forall|k2: int| 0 <= k2 < t.len() ==> lines@.contains(#[trigger] t[k2]),
            sorted_by_angle(t),
            t.to_multiset() == lines@.to_multiset(),
            seq_weight(t) == seq_weight(lines@),
            total == seq_weight(lines@),
            total > 0,
            total <= 0x1000000000000000,
            cum == seq_weight(t.take(i as int)),
            cum <= total,
            walk_median(t, i as int, cum as int, total as int) == walk_median(
                t,
                0,
                0,
                total as int,
            ),
            2 * cum < total,
            lines@.len() >= 1,
            count == lines@.len(),
        decreases sorted.len() - i,
    {
        proof {
            lemma_weight_take_step(t, i as int);
            assert(t.take(t.len() as int) =~= t);
            if i + 1 < t.len() {
                lemma_weight_sub(t, i + 1);
            }
            assert(lines@.contains(t[i as int]));
            let wi = choose|w: int| 0 <= w < lines@.len() && lines@[w] == t[i as int];
            assert(line_wf(t[i as int]));
        }
        let c2 = cum + sorted[i].length;
        if 2 * c2 >= total {
            let angle = sorted[i].angle_millideg;
            let conf_wide = (total * 10) / (count as u64);
            let conf: u32 = if conf_wide > 1000 {
                1000
            } else {
                conf_wide as u32
            };
            proof {
                assert(walk_median(t, 0, 0, total as int) == Some(angle as int));
                assert(is_weighted_median(lines@, angle as int));
            }
            return Some((angle, conf));
        }
        cum = c2;
        i += 1;
    }
    proof {
        assert(t.take(t.len() as int) =~= t);
        assert(cum == seq_weight(t));
        assert(2 * cum < total && cum == total);
        assert(false);
    }
    None
}

proof fn lemma_weight_sub(s: Seq<DetectedLine>, i: int)
    requires
        0 <= i <= s.len(),
    ensures
        seq_weight(s.take(i)) <= seq_weight(s),
    decreases s.len() - i,
{
    if i == s.len() {
        assert(s.take(i) =~= s);
    } else {
        lemma_weight_take_step(s, i);
        lemma_weight_sub(s, i + 1);
    }
}

} // verus!

use vstd::prelude::*;
use crate::buffer::GrayBuffer;
use crate::buffer::PixelBuffer;
use crate::buffer::BoundingBox;
use crate::buffer::find_sprite_bounds;
use crate::buffer::is_tight_bounds;
use crate::buffer::opaque_at;
use crate::buffer::to_grayscale_masked;
use crate::geometry::DetectedAngles;
use crate::geometry::IsometricRatio;

verus! {

fn div_signed_i64(num: i64, den: i64) -> (r: i64)
    requires
        den != 0,
        num > i64::MIN,
        den > i64::MIN,
    ensures
        r == trunc_div_signed(num as int, den as int),
{
    let nn: i128 = num as i128;
    let dd: i128 = den as i128;
    let (pn, pd): (i128, i128) = if dd > 0 {
        (nn, dd)
    } else {
        (-nn, -dd)
    };
    let q: i128 = if pn >= 0 {
        ((pn as u128) / (pd as u128)) as i128
    } else {
        proof {
            assert(((-pn) as u128) / (pd as u128) <= (-pn) as u128) by (nonlinear_arith)
                requires
                    pd > 0,
                    pn < 0,
                    pn > i128::MIN,
            ;
        }
        -((((-pn) as u128) / (pd as u128)) as i128)
    };
    proof {
        assert(-0x8000000000000000 < trunc_div_signed(num as int, den as int)
            < 0x8000000000000000) by (nonlinear_arith)
            requires
                den != 0,
                -0x8000000000000000 < num < 0x8000000000000000,
                trunc_div_signed(num as int, den as int) == (if den > 0 {
                    (if num >= 0 {
                        (num as int) / (den as int)
                    } else {
                        -((-(num as int)) / (den as int))
                    })
                } else {
                    (if num <= 0 {
                        (-(num as int)) / (-(den as int))
                    } else {
                        -((num as int) / (-(den as int)))
                    })
                }),
        ;
    }
    q as i64
}

/// The sampled y coordinate of the polar line at column x, from the line's
/// perpendicular parameters in Q16.
pub open spec fn line_y_at(r_px: int, c: int, s: int, x: int) -> int {
    trunc_div_signed(r_px * 65536 - x * c, s)
}

/// The sampled x coordinate of the polar line at row y.
pub open spec fn line_x_at(r_px: int, c: int, s: int, y: int) -> int {
    trunc_div_signed(r_px * 65536 - y * s, c)
}

/// Sampling column x lands on a nonzero edge pixel.
pub open spec fn hit_at_x(edges: &GrayBuffer, r_px: int, c: int, s: int, x: int) -> bool {
    let y = line_y_at(r_px, c, s, x);
    0 <= y < edges.height && edges.at(x, y) > 0
}

/// Sampling row y lands on a nonzero edge pixel.
pub open spec fn hit_at_y(edges: &GrayBuffer, r_px: int, c: int, s: int, y: int) -> bool {
    let x = line_x_at(r_px, c, s, y);
    0 <= x < edges.width && edges.at(x, y) > 0
}

pub open spec fn count_hits_x(edges: &GrayBuffer, r_px: int, c: int, s: int, n: int) -> int
    decreases n,
{
    if n <= 0 {
        0
    } else {
        count_hits_x(edges, r_px, c, s, n - 1) + (if hit_at_x(edges, r_px, c, s, n - 1) {
            1int
        } else {
            0int
        })
    }
}

pub open spec fn count_hits_y(edges: &GrayBuffer, r_px: int, c: int, s: int, n: int) -> int
    decreases n,
{
    if n <= 0 {
        0
    } else {
        count_hits_y(edges, r_px, c, s, n - 1) + (if hit_at_y(edges, r_px, c, s, n - 1) {
            1int
        } else {
            0int
        })
    }
}

proof fn lemma_count_hits_bound(edges: &GrayBuffer, r_px: int, c: int, s: int, n: int)
    requires
        n >= 0,
    ensures
        0 <= count_hits_x(edges, r_px, c, s, n) <= n,
        0 <= count_hits_y(edges, r_px, c, s, n) <= n,
    decreases n,
{
    if n > 0 {
        lemma_count_hits_bound(edges, r_px, c, s, n - 1);
    }
}

/// The number of sampled positions along the polar line that land on a
/// nonzero edge pixel, sampling across the dominant axis.
pub open spec fn line_support_spec(edges: &GrayBuffer, r_px: int, theta_deg: int) -> int {
    let c = cos_q16_spec(theta_deg * 1000);
    let s = sin_q16_spec(theta_deg * 1000);
    let ca = if c >= 0 {
        c
    } else {
        -c
    };
    let sa = if s >= 0 {
        s
    } else {
        -s
    };
    if sa == 0 && ca == 0 {
        0
    } else if sa > ca {
        count_hits_x(edges, r_px, c, s, edges.width as int)
    } else {
        count_hits_y(edges, r_px, c, s, edges.height as int)
    }
}

/// Estimate a line's support: sample it across the image over its dominant
/// axis and count the sampled positions that land on a nonzero edge pixel.
pub fn estimate_line_length(edges: &GrayBuffer, line: &RawLine) -> (r: u64)
    requires
        edges.wf(),
        edges.width <= 131072,
        edges.height <= 131072,
        -0x100000000 <= line.r <= 0x100000000,
        line.angle_in_degrees <= 180,
    ensures
        r == line_support_spec(edges, line.r as int, line.angle_in_degrees as int),
        r <= 131072,
{
    let (c, s) = sin_cos_q16((line.angle_in_degrees as i64) * 1000);
    let ca: i64 = if c >= 0 {
        c
    } else {
        -c
    };
    let sa: i64 = if s >= 0 {
        s
    } else {
        -s
    };
    let mut count: u64 = 0;
    if sa == 0 && ca == 0 {
        return 0;
    }
    if sa > ca {
        let mut x: usize = 0;
        while x < edges.width
            invariant
                edges.wf(),
                edges.width <= 131072,
                edges.height <= 131072,
                -0x100000000 <= line.r <= 0x100000000,
                x <= edges.width,
                s != 0,
                -262144 <= c <= 262144,
                -262144 <= s <= 262144,
                c == cos_q16_spec(line.angle_in_degrees * 1000),
                s == sin_q16_spec(line.angle_in_degrees * 1000),
                count == count_hits_x(edges, line.r as int, c as int, s as int, x as int),
                count <= x,
            decreases edges.width - x,
        {
            proof {
                assert(-0x2000000000 <= (x as int) * (c as int) <= 0x2000000000)
                    by (nonlinear_arith)
                    requires
                        0 <= x <= 131072,
                        -262144 <= c <= 262144,
                ;
            }
            let num: i64 = line.r * 65536 - (x as i64) * c;
            let y = div_signed_i64(num, s);
            if y >= 0 && y < edges.height as i64 {
                let e = edges.get(x, y as usize);
                if e > 0 {
                    count += 1;
                }
            }
            x += 1;
        }
        count
    } else {
        let mut y: usize = 0;
        while y < edges.height
            invariant
                edges.wf(),
                edges.width <= 131072,
                edges.height <= 131072,
                -0x100000000 <= line.r <= 0x100000000,
                y <= edges.height,
                c != 0,
                -262144 <= c <= 262144,
                -262144 <= s <= 262144,
                c == cos_q16_spec(line.angle_in_degrees * 1000),
                s == sin_q16_spec(line.angle_in_degrees * 1000),
                count == count_hits_y(edges, line.r as int, c as int, s as int, y as int),
                count <= y,
            decreases edges.height - y,
        {
            proof {
                assert(-0x2000000000 <= (y as int) * (s as int) <= 0x2000000000)
                    by (nonlinear_arith)
                    requires
                        0 <= y <= 131072,
                        -262144 <= s <= 262144,
                ;
            }
            let num: i64 = line.r * 65536 - (y as i64) * s;
            let x = div_signed_i64(num, c);
            if x >= 0 && x < edges.width as i64 {
                let e = edges.get(x as usize, y);
                if e > 0 {
                    count += 1;
                }
            }
            y += 1;
        }
        count
    }
}

} // verus!

use imageproc::edges::canny;
use imageproc::hough::detect_lines;
use imageproc::hough::LineDetectionOptions;

verus! {

/// The detection pipeline's tunable constants.
#[derive(Clone, Copy, PartialEq, Eq, Structural, Debug)]
pub struct DetectionConfig {
    pub alpha_threshold: u8,
    pub low_threshold: u16,
    pub high_threshold: u16,
    pub vote_threshold: u32,
    pub suppression_radius: u32,
}

impl DetectionConfig {
    /// The edge-detector thresholds are ordered.
    pub open spec fn wf(&self) -> bool {
        self.low_threshold <= self.high_threshold
    }

    /// The standard tuning: alpha threshold 10, edge thresholds 30 and 100,
    /// vote threshold 40, suppression radius 8.
    pub fn standard() -> (r: DetectionConfig)
        ensures
            r == (DetectionConfig {
                alpha_threshold: 10u8,
                low_threshold: 30u16,
                high_threshold: 100u16,
                vote_threshold: 40u32,
                suppression_radius: 8u32,
            }),
            r.wf(),
    {
        DetectionConfig {
            alpha_threshold: 10,
            low_threshold: 30,
            high_threshold: 100,
            vote_threshold: 40,
            suppression_radius: 8,
        }
    }
}

/// Relies on imageproc::edges::canny: Gaussian blur, Sobel gradients,
/// non-maximum suppression and hysteresis thresholding produce an edge map
/// with the same dimensions as the input; it panics only when the low
/// threshold exceeds the high one, which the precondition rules out.
#[verifier::external_body]
fn detect_edges(gray: &GrayBuffer, low_threshold: u16, high_threshold: u16) -> (r: GrayBuffer)
    requires
        gray.wf(),
        low_threshold <= high_threshold,
        1 <= gray.width <= 20000,
        1 <= gray.height <= 20000,
    ensures
        r.wf(),
        r.width == gray.width,
        r.height == gray.height,
{
    let img = image::GrayImage::from_raw(
        gray.width as u32,
        gray.height as u32,
        gray.data.clone(),
    ).unwrap();
    let edges = canny(&img, low_threshold.into(), high_threshold.into());
    GrayBuffer { width: gray.width, height: gray.height, data: edges.into_raw() }
}

/// Relies on imageproc::hough::detect_lines: every returned line has a
/// whole-degree angle below 180 and an integral signed distance bounded by
/// the image diagonal; the accumulator holds one bin per degree and distance,
/// so the number of lines is bounded by their product.
#[verifier::external_body]
fn hough_detect_lines(edges: &GrayBuffer, vote_threshold: u32, suppression_radius: u32) -> (r:
    Vec<RawLine>)
    requires
        edges.wf(),
        1 <= edges.width <= 20000,
        1 <= edges.height <= 20000,
    ensures
        r@.len() <= 0x1000000,
        forall|i: int|
            0 <= i < r@.len() ==> (#[trigger] r@[i]).angle_in_degrees < 180 && -30000 <= r@[i].r
                <= 30000,
{
    let img = image::GrayImage::from_raw(
        edges.width as u32,
        edges.height as u32,
        edges.data.clone(),
    ).unwrap();
    let options = LineDetectionOptions { vote_threshold, suppression_radius };
    let lines = detect_lines(&img, options);
    lines.iter().map(
        |p| RawLine { r: p.r as i64, angle_in_degrees: p.angle_in_degrees },
    ).collect()
}

proof fn lemma_norm_half_turn_range(a: int)
    ensures
        a > 90000 ==> -90000 <= norm_half_turn(a) <= 90000,
        a < -90000 ==> -90000 <= norm_half_turn(a) <= 90000,
        -90000 <= a <= 90000 ==> norm_half_turn(a) == a,
    decreases
            (if a >= 0 {
                a
            } else {
                -a
            }),
{
    if a > 90000 {
        lemma_norm_half_turn_range(a - 180000);
    } else if a < -90000 {
        lemma_norm_half_turn_range(a + 180000);
    }
}

proof fn lemma_filter_subset(s: Seq<DetectedLine>, pred: spec_fn(DetectedLine) -> bool)
    ensures
        forall|i: int|
            0 <= i < s.filter(pred).len() ==> s.contains(#[trigger] s.filter(pred)[i]),
    decreases s.len(),
{
    reveal(Seq::filter);
    if s.len() > 0 {
        lemma_filter_subset(s.drop_last(), pred);
        assert forall|i: int|
            0 <= i < s.filter(pred).len() implies s.contains(#[trigger] s.filter(pred)[i]) by {
            if i < s.drop_last().filter(pred).len() {
                assert(s.filter(pred)[i] == s.drop_last().filter(pred)[i]);
                let j = choose|j: int|
                    0 <= j < s.drop_last().len() && s.drop_last()[j] == s.drop_last().filter(
                        pred,
                    )[i];
                assert(s[j] == s.drop_last()[j]);
            } else {
                assert(s.filter(pred)[i] == s.last());
            }
        }
    }
}

/// The classified line each raw detector line turns into: its slope angle
/// normalized into a half turn, and its sampled support length.
pub open spec fn detected_lines_spec(edges: &GrayBuffer, raw: Seq<RawLine>) -> Seq<DetectedLine> {
    Seq::new(
        raw.len(),
        |i: int|
            DetectedLine {
                angle_millideg: norm_half_turn(raw[i].angle_in_degrees * 1000 - 90000) as i64,
                length: line_support_spec(
                    edges,
                    raw[i].r as int,
                    raw[i].angle_in_degrees as int,
                ) as u64,
            },
    )
}

/// Turn the raw detector lines into classified lines, split them into the
/// left- and right-sloping classes, and estimate each class's central angle
/// and confidence; an empty or weightless class falls back to the target
/// angle (negated for the left class) with confidence zero.
pub fn analyze_detected_lines(
    edges: &GrayBuffer,
    raw: &Vec<RawLine>,
    target_millideg: i64,
) -> (r: DetectedAngles)
    requires
        edges.wf(),
        1 <= edges.width <= 20000,
        1 <= edges.height <= 20000,
        raw@.len() <= 0x1000000,
        forall|i: int|
            0 <= i < raw@.len() ==> (#[trigger] raw@[i]).angle_in_degrees < 180 && -30000
                <= raw@[i].r <= 30000,
        1 <= target_millideg <= 89999,
    ensures
        r.wf(),
        ({
            let dls = detected_lines_spec(edges, raw@);
            let left = dls.filter(|l: DetectedLine| in_left_range(l));
            let right = dls.filter(|l: DetectedLine| in_right_range(l));
            &&& (left.len() == 0 || seq_weight(left) == 0) ==> r.left_angle == -target_millideg
                && r.left_confidence == 0
            &&& (left.len() > 0 && seq_weight(left) > 0) ==> is_weighted_median(
                left,
                r.left_angle as int,
            ) && r.left_confidence == confidence_spec(seq_weight(left), left.len() as int)
            &&& (right.len() == 0 || seq_weight(right) == 0) ==> r.right_angle == target_millideg
                && r.right_confidence == 0
            &&& (right.len() > 0 && seq_weight(right) > 0) ==> is_weighted_median(
                right,
                r.right_angle as int,
            ) && r.right_confidence == confidence_spec(seq_weight(right), right.len() as int)
        }),
{
    let ghost dls = detected_lines_spec(edges, raw@);
    let mut lines: Vec<DetectedLine> = Vec::new();
    let mut i: usize = 0;
    while i < raw.len()
        invariant
            edges.wf(),
            1 <= edges.width <= 20000,
            1 <= edges.height <= 20000,
            raw@.len() <= 0x1000000,
            forall|k: int|
                0 <= k < raw@.len() ==> (#[trigger] raw@[k]).angle_in_degrees < 180 && -30000
                    <= raw@[k].r <= 30000,
            i <= raw@.len(),
            dls == detected_lines_spec(edges, raw@),
            lines@.len() == i,
            forall|k: int| 0 <= k < i ==> lines@[k] == dls[k],
        decreases raw.len() - i,
    {
        let pl = raw[i];
        let angle = polar_to_angle_millideg(pl.angle_in_degrees);
        let length = estimate_line_length(edges, &pl);
        lines.push(DetectedLine { angle_millideg: angle, length });
        i += 1;
    }
    proof {
        assert(lines@ =~= dls);
        lemma_filter_subset(dls, |l: DetectedLine| in_left_range(l));
        lemma_filter_subset(dls, |l: DetectedLine| in_right_range(l));
        assert forall|k: int| 0 <= k < dls.len() implies #[trigger] line_wf(dls[k]) by {
            lemma_norm_half_turn_range(raw@[k].angle_in_degrees * 1000 - 90000);
            lemma_count_hits_bound(
                edges,
                raw@[k].r as int,
                cos_q16_spec(raw@[k].angle_in_degrees * 1000),
                sin_q16_spec(raw@[k].angle_in_degrees * 1000),
                edges.width as int,
            );
            lemma_count_hits_bound(
                edges,
                raw@[k].r as int,
                cos_q16_spec(raw@[k].angle_in_degrees * 1000),
                sin_q16_spec(raw@[k].angle_in_degrees * 1000),
                edges.height as int,
            );
        }
    }

    let (left, right) = classify_lines(&lines);
    proof {
        let lp = |l: DetectedLine| in_left_range(l);
        let rp = |l: DetectedLine| in_right_range(l);
        assert(dls.filter(lp).len() <= dls.len()) by {
            dls.lemma_filter_len(lp);
        }
        assert(dls.filter(rp).len() <= dls.len()) by {
            dls.lemma_filter_len(rp);
        }
        assert forall|k: int| 0 <= k < left@.len() implies #[trigger] line_wf(left@[k]) by {
            assert(dls.contains(left@[k]));
            let j = choose|j: int| 0 <= j < dls.len() && dls[j] == left@[k];
            assert(line_wf(dls[j]));
        }
        assert forall|k: int| 0 <= k < right@.len() implies #[trigger] line_wf(right@[k]) by {
            assert(dls.contains(right@[k]));
            let j = choose|j: int| 0 <= j < dls.len() && dls[j] == right@[k];
            assert(line_wf(dls[j]));
        }
    }

    let lm = weighted_median(&left);
    let rm = weighted_median(&right);
    let (left_angle, left_confidence): (i64, u32) = match lm {
        Some((a, c)) => (a, c),
        None => (-target_millideg, 0),
    };
    let (right_angle, right_confidence): (i64, u32) = match rm {
        Some((a, c)) => (a, c),
        None => (target_millideg, 0),
    };
    DetectedAngles { left_angle, right_angle, left_confidence, right_confidence }
}

/// What the detection stage found in a sprite: the two estimated diagonal
/// angles, the content bounding box, its center in Q16 coordinates, and how
/// many raw lines the detector returned.
#[derive(Clone, Copy, PartialEq, Eq, Structural, Debug)]
pub struct DetectedGeometry {
    pub angles: DetectedAngles,
    pub bounds: BoundingBox,
    pub center_x_q16: i64,
    pub center_y_q16: i64,
    pub line_count: usize,
}

/// Why detection could not run.
#[derive(Clone, Copy, PartialEq, Eq, Structural, Debug)]
pub enum DetectionError {
    /// Every pixel of the source lies below the alpha threshold.
    NoContent,
}

/// Analyze a sprite to find its isometric diagonal angles: find the content
/// bounds (failing when there is none), build the alpha-masked grayscale
/// image, detect edges and lines through the outside detectors, and estimate
/// the two class angles against the ratio's target angle.
pub fn detect_isometric_angles(
    img: &PixelBuffer,
    ratio: &IsometricRatio,
    cfg: &DetectionConfig,
) -> (r: Result<DetectedGeometry, DetectionError>)
    requires
        img.wf(),
        img.width <= 20000,
        img.height <= 20000,
        ratio.wf(),
        cfg.wf(),
    ensures
        r is Err <==> (forall|x: int, y: int|
            0 <= x < img.width && 0 <= y < img.height ==> !opaque_at(
                img,
                cfg.alpha_threshold,
                x,
                y,
            )),
        r matches Ok(g) ==> {
            &&& is_tight_bounds(img, cfg.alpha_threshold, g.bounds)
            &&& g.center_x_q16 == (2 * g.bounds.x + g.bounds.width) * 32768
            &&& g.center_y_q16 == (2 * g.bounds.y + g.bounds.height) * 32768
            &&& g.angles.wf()
        },
{
    let bounds = match find_sprite_bounds(img, cfg.alpha_threshold) {
        Some(b) => b,
        None => {
            return Err(DetectionError::NoContent);
        },
    };
    let center_x_q16: i64 = ((2 * bounds.x + bounds.width) as i64) * 32768;
    let center_y_q16: i64 = ((2 * bounds.y + bounds.height) as i64) * 32768;

    let gray = to_grayscale_masked(img, cfg.alpha_threshold);
    let edges = detect_edges(&gray, cfg.low_threshold, cfg.high_threshold);
    let raw = hough_detect_lines(&edges, cfg.vote_threshold, cfg.suppression_radius);
    let target = ratio.target_angle_millidegrees();
    let angles = analyze_detected_lines(&edges, &raw, target);
    let line_count = raw.len();

    Ok(DetectedGeometry { angles, bounds, center_x_q16, center_y_q16, line_count })
}

} // verus!
