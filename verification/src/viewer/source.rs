//! A plain source of points: a serial STL-27L, or made-up data, without turns.

use crate::reader::session::{Manner, OPEN_SETTLE_MS, RETRY_DELAY_MS};
use crate::reader::types::{LidarBody, LidarPoint};
use vstd::prelude::*;

pub use crate::reader::data_collector::ConnectionStatus;

verus! {

use crate::reader::collector::points_in;
use crate::reader::types::{BodyView, bodies_view};

/// Where the points come from.
#[derive(Debug, Clone, PartialEq, Eq)]
pub enum Source {
    /// A LiDAR on this port. Where it fails, it is connected again.
    Serial { port: String, baud: u32 },
    /// Made-up data: a rectangular room.
    Demo,
}

/// The adapter is given time, and the delay is slept in one go.
pub fn feed_manner() -> (manner: Manner)
    ensures
        manner == (Manner { settle: Some(OPEN_SETTLE_MS), nap: RETRY_DELAY_MS }),
{
    Manner { settle: Some(OPEN_SETTLE_MS), nap: RETRY_DELAY_MS }
}

/// The points of several frames, in order.
pub fn points_of(frames: &Vec<LidarBody>) -> (points: Vec<LidarPoint>)
    ensures
        points@ == points_in(bodies_view(frames@)),
{
    let ghost bodies = bodies_view(frames@);
    let mut points: Vec<LidarPoint> = Vec::new();
    let mut i: usize = 0;
    assert(bodies.take(0) =~= Seq::<BodyView>::empty());
    while i < frames.len()
        invariant
            i <= frames@.len(),
            bodies == bodies_view(frames@),
            points@ == points_in(bodies.take(i as int)),
        decreases frames@.len() - i,
    {
        let ghost earlier = points@;
        let ghost body = frames@[i as int].points@;
        assert(bodies.take(i + 1).drop_last() =~= bodies.take(i as int));
        assert(bodies.take(i + 1).last().points == body);
        let mut j: usize = 0;
        while j < frames[i].points.len()
            invariant
                i < frames@.len(),
                body == frames@[i as int].points@,
                j <= body.len(),
                points@ == earlier + body.take(j as int),
            decreases body.len() - j,
        {
            points.push(frames[i].points[j]);
            j = j + 1;
            assert(points@ =~= earlier + body.take(j as int));
        }
        assert(body.take(j as int) =~= body);
        i = i + 1;
    }
    assert(bodies.take(i as int) =~= bodies);
    points
}

} // verus!
