//! Points put together to whole turns.
//!
//! The angle grows until the sensor passes 0°. Where it falls by more than half a turn, a turn is
//! complete. Half a turn is the limit because noise makes the angle go back a little; only the
//! passage of 0° makes it fall that far.

use crate::reader::types::{FULL_TURN_TICKS, HALF_TURN_TICKS, LidarPoint};
use vstd::prelude::*;

verus! {

/// A turn with this many points is complete in any case, so that a stream without a passage of
/// 0° does not use up the memory.
pub const MAX_SCAN_POINTS: usize = 20_000;

/// A point with its angle brought into the range of one turn.
pub open spec fn normalized(point: LidarPoint) -> LidarPoint {
    LidarPoint { angle_ticks: (point.angle_ticks % FULL_TURN_TICKS), ..point }
}

/// Whether the sensor passed 0° between two angles.
pub open spec fn passes_zero(before: u64, after: u64) -> bool {
    before - after > HALF_TURN_TICKS
}

/// Turns put together: the complete ones in order, and the points of the next.
#[verifier::ext_equal]
pub struct Turns {
    pub complete: Seq<Seq<LidarPoint>>,
    pub current: Seq<LidarPoint>,
}

/// Whether a point with this angle begins a new turn behind the points of `current`.
pub open spec fn begins_turn(current: Seq<LidarPoint>, angle: u64) -> bool {
    current.len() > 0 && (passes_zero(current.last().angle_ticks, angle) || current.len()
        >= MAX_SCAN_POINTS)
}

/// The points of the turn at hand after one more point. A distance of 0 is no measurement.
pub open spec fn current_after(current: Seq<LidarPoint>, point: LidarPoint) -> Seq<LidarPoint> {
    if point.distance_mm == 0 {
        current
    } else if begins_turn(current, normalized(point).angle_ticks) {
        seq![normalized(point)]
    } else {
        current.push(normalized(point))
    }
}

/// The turn that one more point completes, if any.
pub open spec fn completed_by(current: Seq<LidarPoint>, point: LidarPoint) -> Option<
    Seq<LidarPoint>,
> {
    if point.distance_mm != 0 && begins_turn(current, normalized(point).angle_ticks) {
        Some(current)
    } else {
        None
    }
}

/// The turns that `points` make, behind the points of `current`.
pub open spec fn turns_of(current: Seq<LidarPoint>, points: Seq<LidarPoint>) -> Turns
    decreases points.len(),
{
    if points.len() == 0 {
        Turns { complete: Seq::empty(), current }
    } else {
        let before = turns_of(current, points.drop_last());
        Turns {
            complete: match completed_by(before.current, points.last()) {
                Some(turn) => before.complete.push(turn),
                None => before.complete,
            },
            current: current_after(before.current, points.last()),
        }
    }
}

/// The points that are measurements, normalized.
pub open spec fn measured(points: Seq<LidarPoint>) -> Seq<LidarPoint> {
    points.filter(|point: LidarPoint| point.distance_mm != 0).map_values(
        |point: LidarPoint| normalized(point),
    )
}

/// All points of several turns, in order.
pub open spec fn flat(turns: Seq<Seq<LidarPoint>>) -> Seq<LidarPoint>
    decreases turns.len(),
{
    if turns.len() == 0 {
        Seq::empty()
    } else {
        flat(turns.drop_last()) + turns.last()
    }
}

/// Points that can be the beginning of one turn: measurements with normalized angles, none of
/// which passes 0°, and not too many.
pub open spec fn within_one_turn(points: Seq<LidarPoint>) -> bool {
    &&& points.len() <= MAX_SCAN_POINTS
    &&& forall|i: int|
        0 <= i < points.len() ==> (#[trigger] points[i]).distance_mm != 0 && points[i].angle_ticks
            < FULL_TURN_TICKS
    &&& forall|i: int, j: int|
        #![trigger points[i], points[j]]
        0 <= i && j == i + 1 && j < points.len() ==> !passes_zero(
            points[i].angle_ticks,
            points[j].angle_ticks,
        )
}

/// Puts a stream of points together to turns.
pub struct Assembler {
    current: Vec<LidarPoint>,
    last_angle: Option<u64>,
}

impl Assembler {
    /// The points of the turn at hand.
    pub closed spec fn points(&self) -> Seq<LidarPoint> {
        self.current@
    }

    /// The points at hand are the beginning of one turn, and the last angle is that of the last
    /// point.
    pub closed spec fn wf(&self) -> bool {
        &&& within_one_turn(self.current@)
        &&& self.last_angle == (if self.current@.len() == 0 {
            None
        } else {
            Some(self.current@.last().angle_ticks)
        })
    }

    /// The points at hand are the beginning of one turn.
    pub proof fn lemma_wf(&self)
        requires
            self.wf(),
        ensures
            within_one_turn(self.points()),
    {
    }

    pub fn new() -> (assembler: Self)
        ensures
            assembler.wf(),
            assembler.points() == Seq::<LidarPoint>::empty(),
    {
        Assembler { current: Vec::new(), last_angle: None }
    }

    /// Takes one point. Where it completes a turn, that turn comes out.
    pub fn ingest(&mut self, point: LidarPoint) -> (completed: Option<Vec<LidarPoint>>)
        requires
            old(self).wf(),
        ensures
            final(self).wf(),
            final(self).points() == current_after(old(self).points(), point),
            match completed {
                Some(turn) => completed_by(old(self).points(), point) == Some(turn@),
                None => completed_by(old(self).points(), point) is None,
            },
            completed is Some <==> point.distance_mm > 0 && old(self).points().len() > 0 && (
            old(self).points().last().angle_ticks - point.angle_ticks % 3_960_000 > 1_980_000
                || old(self).points().len() >= 20_000),
            completed matches Some(turn) ==> turn@ == old(self).points(),
    {
        if point.distance_mm == 0 {
            return None;
        }
        let angle: u64 = point.angle_ticks % FULL_TURN_TICKS;

        let wrapped: bool = match self.last_angle {
            Some(prev) => prev > angle && prev - angle > HALF_TURN_TICKS,
            None => false,
        };
        let ghost before = self.current@;
        let completed: Option<Vec<LidarPoint>> = if wrapped || self.current.len()
            >= MAX_SCAN_POINTS {
            let mut turn: Vec<LidarPoint> = Vec::new();
            std::mem::swap(&mut turn, &mut self.current);
            Some(turn)
        } else {
            None
        };

        self.last_angle = Some(angle);
        self.current.push(
            LidarPoint {
                angle_ticks: angle,
                distance_mm: point.distance_mm,
                intensity: point.intensity,
            },
        );
        proof {
            assert(self.current@ =~= current_after(before, point));
        }
        completed
    }
}

/// A stream of points may come in parts: the turns of `a` and then of `b` are the turns of both.
pub proof fn law_points_in_two(current: Seq<LidarPoint>, a: Seq<LidarPoint>, b: Seq<LidarPoint>)
    ensures
        ({
            let first = turns_of(current, a);
            let second = turns_of(first.current, b);
            let whole = turns_of(current, a + b);
            &&& whole.complete == first.complete + second.complete
            &&& whole.current == second.current
        }),
    decreases b.len(),
{
    let first = turns_of(current, a);
    if b.len() == 0 {
        assert(a + b =~= a);
        assert(first.complete + turns_of(first.current, b).complete =~= first.complete);
    } else {
        law_points_in_two(current, a, b.drop_last());
        assert((a + b).drop_last() =~= a + b.drop_last());
        assert(turns_of(current, a + b).complete =~= first.complete + turns_of(
            first.current,
            b,
        ).complete);
    }
}

/// No measurement is lost, repeated or moved: the complete turns one after the other, followed
/// by the turn at hand, are the measurements that came in.
pub proof fn law_no_point_is_lost(points: Seq<LidarPoint>)
    ensures
        ({
            let turns = turns_of(Seq::empty(), points);
            flat(turns.complete) + turns.current == measured(points)
        }),
    decreases points.len(),
{
    let turns = turns_of(Seq::empty(), points);
    reveal(Seq::filter);
    if points.len() == 0 {
        assert(flat(turns.complete) + turns.current =~= measured(points));
    } else {
        let before = turns_of(Seq::empty(), points.drop_last());
        let point = points.last();
        law_no_point_is_lost(points.drop_last());
        if point.distance_mm == 0 {
            assert(measured(points) =~= measured(points.drop_last()));
        } else {
            assert(measured(points) =~= measured(points.drop_last()).push(normalized(point)));
            if begins_turn(before.current, normalized(point).angle_ticks) {
                assert(turns.complete.drop_last() =~= before.complete);
            }
            assert(flat(turns.complete) + turns.current =~= measured(points));
        }
    }
}

/// A complete turn has from 1 to [`MAX_SCAN_POINTS`] points, all measurements, and 0° is not
/// passed within it. So are the points at hand.
pub proof fn law_turns_are_turns(current: Seq<LidarPoint>, points: Seq<LidarPoint>)
    requires
        within_one_turn(current),
    ensures
        within_one_turn(turns_of(current, points).current),
        forall|i: int|
            0 <= i < turns_of(current, points).complete.len() ==> {
                let turn = #[trigger] turns_of(current, points).complete[i];
                turn.len() > 0 && within_one_turn(turn)
            },
    decreases points.len(),
{
    if points.len() > 0 {
        law_turns_are_turns(current, points.drop_last());
    }
}

/// A turn is complete only where 0° is passed or where it has [`MAX_SCAN_POINTS`] points: the
/// point behind it, in the next turn or the one at hand, shows which.
pub proof fn law_turns_end_at_zero(points: Seq<LidarPoint>, i: int)
    requires
        0 <= i < turns_of(Seq::empty(), points).complete.len(),
    ensures
        ({
            let turns = turns_of(Seq::empty(), points);
            let turn = turns.complete[i];
            let next = if i + 1 < turns.complete.len() {
                turns.complete[i + 1]
            } else {
                turns.current
            };
            &&& next.len() > 0
            &&& passes_zero(turn.last().angle_ticks, next[0].angle_ticks) || turn.len()
                == MAX_SCAN_POINTS
        }),
    decreases points.len(),
{
    let before = turns_of(Seq::empty(), points.drop_last());
    law_turns_are_turns(Seq::empty(), points.drop_last());
    law_turns_are_turns(Seq::empty(), points);
    if i < before.complete.len() {
        law_turns_end_at_zero(points.drop_last(), i);
    }
}

/// There are no more complete turns than points.
pub proof fn lemma_turn_count(current: Seq<LidarPoint>, points: Seq<LidarPoint>)
    ensures
        turns_of(current, points).complete.len() <= points.len(),
    decreases points.len(),
{
    if points.len() > 0 {
        lemma_turn_count(current, points.drop_last());
    }
}

/// A passage of 0° always ends the turn: a measurement whose angle lies more than half a turn,
/// which is 1,980,000 ticks, below that of the last point completes the turn, and begins the next.
pub proof fn law_passage_of_zero_ends_the_turn(current: Seq<LidarPoint>, point: LidarPoint)
    requires
        current.len() > 0,
        point.distance_mm > 0,
        current.last().angle_ticks - point.angle_ticks % 3_960_000 > 1_980_000,
    ensures
        completed_by(current, point) == Some(current),
        current_after(current, point) == seq![
            LidarPoint {
                angle_ticks: (point.angle_ticks % 3_960_000) as u64,
                distance_mm: point.distance_mm,
                intensity: point.intensity,
            },
        ],
{
}

/// Short of that, and of 20,000 points, the turn goes on: a measurement is added to it, with its
/// angle within one turn and the rest as it came.
pub proof fn law_turn_goes_on(current: Seq<LidarPoint>, point: LidarPoint)
    requires
        point.distance_mm > 0,
        current.len() < 20_000,
        current.len() > 0 ==> current.last().angle_ticks - point.angle_ticks % 3_960_000
            <= 1_980_000,
    ensures
        completed_by(current, point) is None,
        current_after(current, point) == current.push(
            LidarPoint {
                angle_ticks: (point.angle_ticks % 3_960_000) as u64,
                distance_mm: point.distance_mm,
                intensity: point.intensity,
            },
        ),
{
}

/// A turn of 20,000 points is complete with the next measurement, whatever its angle.
pub proof fn law_full_turn_is_complete(current: Seq<LidarPoint>, point: LidarPoint)
    requires
        point.distance_mm > 0,
        current.len() >= 20_000,
    ensures
        completed_by(current, point) == Some(current),
        current_after(current, point) == seq![
            LidarPoint {
                angle_ticks: (point.angle_ticks % 3_960_000) as u64,
                distance_mm: point.distance_mm,
                intensity: point.intensity,
            },
        ],
{
}

/// A distance of 0 is no measurement: it completes nothing and is not kept.
pub proof fn law_no_measurement_changes_nothing(current: Seq<LidarPoint>, point: LidarPoint)
    requires
        point.distance_mm == 0,
    ensures
        completed_by(current, point) is None,
        current_after(current, point) == current,
{
}

/// The turns of one point are the turn that it completes, if any, and the points at hand with it;
/// without a point nothing happens. With [`law_points_in_two`], that is all that the turns of a
/// stream are.
pub proof fn law_turns_of_one_point(current: Seq<LidarPoint>, point: LidarPoint)
    ensures
        turns_of(current, Seq::empty()) == (Turns { complete: Seq::empty(), current }),
        turns_of(current, seq![point]) == (Turns {
            complete: match completed_by(current, point) {
                Some(turn) => seq![turn],
                None => Seq::empty(),
            },
            current: current_after(current, point),
        }),
{
    let one = seq![point];
    assert(one.drop_last() =~= Seq::<LidarPoint>::empty());
    assert(turns_of(current, Seq::empty()) == (Turns { complete: Seq::empty(), current }));
    assert(turns_of(current, one).complete =~= (match completed_by(current, point) {
        Some(turn) => seq![turn],
        None => Seq::empty(),
    }));
}

/// Within a turn the angle never falls by more than half a turn, which is 1,980,000 ticks: neither
/// in a complete turn nor in the points at hand. No turn has more than 20,000 points, and every
/// point of a turn is a measurement with an angle within one turn.
pub proof fn law_no_turn_passes_zero(points: Seq<LidarPoint>, i: int)
    requires
        0 <= i <= turns_of(Seq::empty(), points).complete.len(),
    ensures
        ({
            let turns = turns_of(Seq::empty(), points);
            let turn = if i < turns.complete.len() {
                turns.complete[i]
            } else {
                turns.current
            };
            &&& turn.len() <= 20_000
            &&& forall|k: int|
                0 <= k < turn.len() ==> (#[trigger] turn[k]).distance_mm > 0 && turn[k].angle_ticks
                    < 3_960_000
            &&& forall|k: int|
                0 <= k < turn.len() - 1 ==> (#[trigger] turn[k]).angle_ticks - turn[k
                    + 1].angle_ticks <= 1_980_000
        }),
{
    law_turns_are_turns(Seq::empty(), points);
    let turns = turns_of(Seq::empty(), points);
    let turn = if i < turns.complete.len() {
        turns.complete[i]
    } else {
        turns.current
    };
    assert(within_one_turn(turn));
    assert forall|k: int| 0 <= k < turn.len() - 1 implies (#[trigger] turn[k]).angle_ticks - turn[k
        + 1].angle_ticks <= 1_980_000 by {
        let next = turn[k + 1];
        assert(!passes_zero(turn[k].angle_ticks, next.angle_ticks));
    }
}

/// A turn ends only where the angle falls by more than 1,980,000 ticks to the point behind it, or
/// where the turn has 20,000 points.
pub proof fn law_turns_end_nowhere_else(points: Seq<LidarPoint>, i: int)
    requires
        0 <= i < turns_of(Seq::empty(), points).complete.len(),
    ensures
        ({
            let turns = turns_of(Seq::empty(), points);
            let turn = turns.complete[i];
            let next = if i + 1 < turns.complete.len() {
                turns.complete[i + 1]
            } else {
                turns.current
            };
            &&& turn.len() > 0
            &&& next.len() > 0
            &&& turn.last().angle_ticks - next[0].angle_ticks > 1_980_000 || turn.len() == 20_000
        }),
{
    law_turns_end_at_zero(points, i);
    law_turns_are_turns(Seq::empty(), points);
    assert(turns_of(Seq::empty(), points).complete[i].len() > 0);
}

/// No measurement is lost, repeated, moved or changed: what was at hand, followed by each point
/// with a distance above 0, its angle brought into one turn of 3,960,000 ticks, is the complete
/// turns one after the other, followed by what is then at hand.
pub proof fn law_turns_hold_every_measurement(current: Seq<LidarPoint>, points: Seq<LidarPoint>)
    ensures
        ({
            let turns = turns_of(current, points);
            flat(turns.complete) + turns.current == current + points.filter(
                |point: LidarPoint| point.distance_mm > 0,
            ).map_values(
                |point: LidarPoint|
                    LidarPoint {
                        angle_ticks: (point.angle_ticks % 3_960_000) as u64,
                        distance_mm: point.distance_mm,
                        intensity: point.intensity,
                    },
            )
        }),
    decreases points.len(),
{
    reveal(Seq::filter);
    let turns = turns_of(current, points);
    let hits = |point: LidarPoint| point.distance_mm > 0;
    let within = |point: LidarPoint|
        LidarPoint {
            angle_ticks: (point.angle_ticks % 3_960_000) as u64,
            distance_mm: point.distance_mm,
            intensity: point.intensity,
        };
    if points.len() == 0 {
        assert(flat(turns.complete) + turns.current =~= current + points.filter(hits).map_values(
            within,
        ));
    } else {
        let before = turns_of(current, points.drop_last());
        let point = points.last();
        let earlier = points.drop_last().filter(hits);
        law_turns_hold_every_measurement(current, points.drop_last());
        if point.distance_mm > 0 {
            assert(earlier.push(point).map_values(within) =~= earlier.map_values(within).push(
                within(point),
            ));
            let sum = flat(before.complete) + before.current;
            assert(points.filter(hits) =~= earlier.push(point));
            assert(sum =~= current + earlier.map_values(within));
            if begins_turn(before.current, normalized(point).angle_ticks) {
                assert(turns.complete.drop_last() =~= before.complete);
                assert(flat(turns.complete) =~= sum);
            }
            assert(normalized(point) == within(point));
            assert(flat(turns.complete) + turns.current =~= sum.push(within(point)));
            assert(flat(turns.complete) + turns.current =~= current + points.filter(
                hits,
            ).map_values(within));
        }
    }
}

/// The points of turns one after the other, one turn at a time.
pub proof fn law_flat_joins_turns(turns: Seq<Seq<LidarPoint>>, turn: Seq<LidarPoint>)
    ensures
        flat(Seq::empty()) == Seq::<LidarPoint>::empty(),
        flat(turns.push(turn)) == flat(turns) + turn,
{
    assert(turns.push(turn).drop_last() =~= turns);
}

} // verus!
