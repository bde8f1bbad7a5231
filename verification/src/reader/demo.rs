//! Made-up data without a sensor: the beam's angle.

use crate::reader::types::{FULL_TURN_TICKS, LidarPoint};
use vstd::prelude::*;

verus! {

use crate::reader::assembler::{Turns, normalized, turns_of};
use crate::reader::collector::numbered;
use crate::reader::data_collector::ScanView;

/// Ticks from one made-up point to the next: half a degree.
pub const DEMO_STEP_TICKS: u64 = 5_500;

/// Made-up points that come at a time, as many as a sensor's frame has.
pub const DEMO_BATCH: usize = 12;

/// Made-up points in a full turn.
pub const DEMO_POINTS_PER_TURN: u64 = 720;

/// The angle of the next made-up point.
pub open spec fn demo_angle_of(angle: u64) -> u64 {
    ((angle + DEMO_STEP_TICKS) % FULL_TURN_TICKS as int) as u64
}

/// The angle of the next made-up point.
pub fn next_demo_angle(angle: u64) -> (next: u64)
    requires
        angle < FULL_TURN_TICKS,
    ensures
        next == demo_angle_of(angle),
        next < FULL_TURN_TICKS,
{
    (angle + DEMO_STEP_TICKS) % FULL_TURN_TICKS
}

/// The angle after `n` made-up points.
pub open spec fn demo_angle_after(angle: u64, n: nat) -> u64
    decreases n,
{
    if n == 0 {
        angle
    } else {
        demo_angle_of(demo_angle_after(angle, (n - 1) as nat))
    }
}

/// A turn has 720 made-up points: after so many the beam is where it was.
pub proof fn law_demo_turn(angle: u64)
    requires
        angle < FULL_TURN_TICKS,
    ensures
        demo_angle_after(angle, DEMO_POINTS_PER_TURN as nat) == angle,
{
    lemma_demo_angle(angle, DEMO_POINTS_PER_TURN as nat);
}

proof fn lemma_demo_angle(angle: u64, n: nat)
    requires
        angle < FULL_TURN_TICKS,
    ensures
        demo_angle_after(angle, n) == (angle + n * DEMO_STEP_TICKS) % FULL_TURN_TICKS as int,
    decreases n,
{
    if n > 0 {
        lemma_demo_angle(angle, (n - 1) as nat);
    }
}

/// Made-up points from angle 0 on: each hits a wall, and each is a step behind the one before.
pub open spec fn is_demo(points: Seq<LidarPoint>) -> bool {
    forall|k: int|
        0 <= k < points.len() ==> (#[trigger] points[k]).distance_mm != 0 && points[k].angle_ticks
            == demo_angle_after(0, k as nat)
}

/// How many turns `n` made-up points complete: a turn is complete with the first point of the
/// next.
pub open spec fn demo_turns(n: int) -> int {
    if n == 0 {
        0
    } else {
        (n - 1) / 720
    }
}

/// Point `k` of a made-up turn lies `k` steps from angle 0.
pub proof fn law_demo_angles(k: nat)
    ensures
        demo_angle_after(0, k) == (k % 720) * DEMO_STEP_TICKS,
{
    lemma_demo_angle(0, k);
    let turns = (k / 720) as int;
    let step = (k % 720) as int;
    assert(k == 720 * turns + step);
    assert(k * 5_500 == 3_960_000 * turns + step * 5_500);
    assert((3_960_000 * turns + step * 5_500) % 3_960_000 == step * 5_500) by (nonlinear_arith)
        requires
            0 <= step * 5_500 < 3_960_000,
    ;
}

/// The turns of the first `n` made-up points.
proof fn lemma_demo_turns(points: Seq<LidarPoint>, n: int)
    requires
        is_demo(points),
        0 <= n <= points.len(),
    ensures
        ({
            let m = demo_turns(n);
            turns_of(Seq::empty(), points.take(n)) == (Turns {
                complete: Seq::new(
                    m as nat,
                    |i: int| points.subrange(720 * i, 720 * i + 720),
                ),
                current: points.subrange(720 * m, n),
            })
        }),
    decreases n,
{
    let turns = turns_of(Seq::empty(), points.take(n));
    let m = demo_turns(n);
    let complete = Seq::new(m as nat, |i: int| points.subrange(720 * i, 720 * i + 720));
    if n == 0 {
        assert(points.take(0) =~= Seq::<LidarPoint>::empty());
        assert(turns =~= (Turns { complete, current: points.subrange(0, 0) }));
    } else {
        let before = turns_of(Seq::empty(), points.take(n - 1));
        let point = points[n - 1];
        lemma_demo_turns(points, n - 1);
        assert(points.take(n).drop_last() =~= points.take(n - 1));
        assert(points.take(n).last() == point);
        law_demo_angles((n - 1) as nat);
        assert(normalized(point) == point);
        if n > 1 {
            let previous = points[n - 2];
            law_demo_angles((n - 2) as nat);
            let start = 720 * demo_turns(n - 1);
            assert(before.current == points.subrange(start, n - 1));
            assert(before.current.last() == previous);
            if (n - 1) % 720 == 0 {
                assert(m == demo_turns(n - 1) + 1);
                assert(before.current == points.subrange(720 * (m - 1), 720 * (m - 1) + 720));
                assert(turns.complete =~= complete);
                assert(turns.current =~= points.subrange(720 * m, n));
            } else {
                assert(m == demo_turns(n - 1));
                assert(turns.complete =~= complete);
                assert(turns.current =~= points.subrange(720 * m, n));
            }
        } else {
            assert(before.current =~= Seq::<LidarPoint>::empty());
            assert(turns.complete =~= complete);
            assert(turns.current =~= points.subrange(0, 1));
        }
    }
}

/// Made-up scans: from angle 0 on, each one has exactly 720 points, point `k` of them `k` steps
/// from angle 0, no point is left out between two of them, and they are numbered on. The points
/// behind the last complete turn are at hand.
pub proof fn law_demo_scans(points: Seq<LidarPoint>, first: nat)
    requires
        is_demo(points),
    ensures
        ({
            let turns = turns_of(Seq::empty(), points);
            let scans = numbered(turns.complete, first);
            &&& scans.len() == demo_turns(points.len() as int)
            &&& forall|i: int|
                0 <= i < scans.len() ==> #[trigger] scans[i] == (ScanView {
                    points: points.subrange(720 * i, 720 * i + 720),
                    rotation: (first + i) as u64,
                })
            &&& forall|i: int, k: int|
                0 <= i < scans.len() && 0 <= k < 720 ==> (#[trigger] scans[i].points[k]).angle_ticks
                    == k * DEMO_STEP_TICKS
            &&& turns.current == points.subrange(720 * scans.len() as int, points.len() as int)
        }),
{
    let n = points.len() as int;
    assert(points.take(n) =~= points);
    lemma_demo_turns(points, n);
    let scans = numbered(turns_of(Seq::empty(), points).complete, first);
    assert forall|i: int, k: int| 0 <= i < scans.len() && 0 <= k < 720 implies (
    #[trigger] scans[i].points[k]).angle_ticks == k * DEMO_STEP_TICKS by {
        assert(scans[i].points[k] == points[720 * i + k]);
        law_demo_angles((720 * i + k) as nat);
        assert((720 * i + k) % 720 == k);
    }
}

/// The beam goes on by half a degree, which is 5,500 ticks, and begins again at 0 after a full
/// turn of 3,960,000.
pub proof fn law_demo_step(angle: u64)
    requires
        angle < 3_960_000,
    ensures
        angle < 3_954_500 ==> demo_angle_of(angle) - angle == 5_500,
        angle >= 3_954_500 ==> demo_angle_of(angle) == angle - 3_954_500,
        demo_angle_after(angle, 0) == angle,
        demo_angle_after(angle, 1) == demo_angle_of(angle),
{
    assert(demo_angle_after(angle, 0) == angle);
}

} // verus!
