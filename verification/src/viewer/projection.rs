//! Which points of a scan are drawn, and how bright.

use crate::reader::types::LidarPoint;
use vstd::prelude::*;

verus! {

/// Steps of brightness by which the signal strength is shown.
pub const INTENSITY_TIERS: usize = 5;

/// Whether a distance is drawn.
pub open spec fn reaches(distance_mm: u16, max_range_mm: Option<u16>) -> bool {
    match max_range_mm {
        Some(limit) => distance_mm <= limit,
        None => false,
    }
}

/// Whether a distance is drawn.
pub fn is_in_range(distance_mm: u16, max_range_mm: Option<u16>) -> (drawn: bool)
    ensures
        drawn == reaches(distance_mm, max_range_mm),
{
    match max_range_mm {
        Some(limit) => distance_mm <= limit,
        None => false,
    }
}

/// The points that are drawn, in order: those that are not too far away.
pub fn in_range(points: &Vec<LidarPoint>, max_range_mm: Option<u16>) -> (drawn: Vec<LidarPoint>)
    ensures
        drawn@ == points@.filter(|point: LidarPoint| reaches(point.distance_mm, max_range_mm)),
        max_range_mm is None ==> drawn@.len() == 0,
        max_range_mm matches Some(limit) ==> drawn@ == points@.filter(
            |point: LidarPoint| point.distance_mm <= limit,
        ),
{
    let ghost near = |point: LidarPoint| reaches(point.distance_mm, max_range_mm);
    let mut drawn: Vec<LidarPoint> = Vec::new();
    let mut i: usize = 0;
    reveal(Seq::filter);
    assert(points@.take(0) =~= Seq::<LidarPoint>::empty());
    while i < points.len()
        invariant
            i <= points@.len(),
            near == (|point: LidarPoint| reaches(point.distance_mm, max_range_mm)),
            drawn@ == points@.take(i as int).filter(near),
        decreases points@.len() - i,
    {
        reveal(Seq::filter);
        assert(points@.take(i + 1).drop_last() =~= points@.take(i as int));
        if is_in_range(points[i].distance_mm, max_range_mm) {
            drawn.push(points[i]);
        }
        i = i + 1;
    }
    assert(points@.take(i as int) =~= points@);
    proof {
        lemma_near_points(points@, max_range_mm);
    }
    drawn
}

/// The step of brightness for a signal strength: the range of strengths in equal parts.
pub open spec fn tier_of(intensity: u8) -> int {
    intensity as int * 5 / 256
}

/// The step of brightness for a signal strength.
pub fn intensity_tier(intensity: u8) -> (tier: usize)
    ensures
        tier == tier_of(intensity),
        tier < INTENSITY_TIERS,
{
    intensity as usize * INTENSITY_TIERS / 256
}

/// The points of one step of brightness, in order.
pub open spec fn points_of_tier(points: Seq<LidarPoint>, tier: int) -> Seq<LidarPoint> {
    points.filter(|point: LidarPoint| tier_of(point.intensity) == tier)
}

/// The points parted by their step of brightness, darkest first.
pub fn by_tier(points: &Vec<LidarPoint>) -> (tiers: Vec<Vec<LidarPoint>>)
    ensures
        tiers@.len() == INTENSITY_TIERS,
        forall|tier: int|
            0 <= tier < INTENSITY_TIERS ==> (#[trigger] tiers@[tier])@ == points_of_tier(
                points@,
                tier,
            ),
{
    let mut tiers: Vec<Vec<LidarPoint>> = Vec::new();
    let mut tier: usize = 0;
    while tier < INTENSITY_TIERS
        invariant
            tier <= INTENSITY_TIERS,
            tiers@.len() == tier,
            forall|t: int|
                0 <= t < tier ==> (#[trigger] tiers@[t])@ == points_of_tier(points@, t),
        decreases INTENSITY_TIERS - tier,
    {
        tiers.push(one_tier(points, tier));
        tier = tier + 1;
    }
    tiers
}

/// The points of one step of brightness.
fn one_tier(points: &Vec<LidarPoint>, tier: usize) -> (group: Vec<LidarPoint>)
    ensures
        group@ == points_of_tier(points@, tier as int),
{
    let mut group: Vec<LidarPoint> = Vec::new();
    let mut i: usize = 0;
    reveal(Seq::filter);
    assert(points@.take(0) =~= Seq::<LidarPoint>::empty());
    while i < points.len()
        invariant
            i <= points@.len(),
            group@ == points_of_tier(points@.take(i as int), tier as int),
        decreases points@.len() - i,
    {
        reveal(Seq::filter);
        assert(points@.take(i + 1).drop_last() =~= points@.take(i as int));
        if intensity_tier(points[i].intensity) == tier {
            group.push(points[i]);
        }
        i = i + 1;
    }
    assert(points@.take(i as int) =~= points@);
    group
}

/// The number of points in the first `n` groups.
pub open spec fn grouped(points: Seq<LidarPoint>, n: nat) -> nat
    decreases n,
{
    if n == 0 {
        0
    } else {
        grouped(points, (n - 1) as nat) + points_of_tier(points, n - 1).len()
    }
}

/// Every point is in exactly one group: the groups together have as many points as there are.
pub proof fn law_tiers_hold_every_point(points: Seq<LidarPoint>)
    ensures
        grouped(points, 5) == points.len(),
    decreases points.len(),
{
    reveal(Seq::filter);
    reveal_with_fuel(grouped, 6);
    if points.len() > 0 {
        law_tiers_hold_every_point(points.drop_last());
        let last = points.last();
        assert(0 <= tier_of(last.intensity) < 5);
    }
}

/// A stronger signal is never drawn darker.
pub proof fn law_stronger_is_brighter(weak: u8, strong: u8)
    requires
        weak <= strong,
    ensures
        0 <= tier_of(weak) <= tier_of(strong) < INTENSITY_TIERS,
{
}

/// A distance is drawn up to the limit, the limit included, and nothing is without a limit.
pub proof fn law_range_ends_at_the_limit(distance_mm: u16, limit: u16)
    ensures
        reaches(distance_mm, Some(limit)) <==> distance_mm <= limit,
        !reaches(distance_mm, None),
{
}

/// The five steps of brightness are equal parts of the 256 signal strengths.
pub proof fn law_tiers_are_equal_parts(intensity: u8, tier: int)
    ensures
        tier_of(intensity) == tier <==> 256 * tier <= 5 * intensity < 256 * (tier + 1),
        0 <= tier_of(intensity) < 5,
{
}

/// The groups go point by point: one more point is one more in the group of its strength, at the
/// end, and in no other.
pub proof fn law_tiers_go_point_by_point(points: Seq<LidarPoint>, point: LidarPoint, tier: int)
    ensures
        points_of_tier(Seq::empty(), tier) == Seq::<LidarPoint>::empty(),
        256 * tier <= 5 * point.intensity < 256 * (tier + 1) ==> points_of_tier(
            points.push(point),
            tier,
        ) == points_of_tier(points, tier).push(point),
        !(256 * tier <= 5 * point.intensity < 256 * (tier + 1)) ==> points_of_tier(
            points.push(point),
            tier,
        ) == points_of_tier(points, tier),
{
    reveal(Seq::filter);
    assert(points.push(point).drop_last() =~= points);
}

/// The points that are drawn, by the limit itself.
proof fn lemma_near_points(points: Seq<LidarPoint>, max_range_mm: Option<u16>)
    ensures
        ({
            let drawn = points.filter(
                |point: LidarPoint| reaches(point.distance_mm, max_range_mm),
            );
            &&& max_range_mm is None ==> drawn.len() == 0
            &&& max_range_mm matches Some(limit) ==> drawn == points.filter(
                |point: LidarPoint| point.distance_mm <= limit,
            )
        }),
    decreases points.len(),
{
    reveal(Seq::filter);
    if points.len() > 0 {
        lemma_near_points(points.drop_last(), max_range_mm);
    }
}

} // verus!
