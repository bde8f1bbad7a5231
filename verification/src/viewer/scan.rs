//! The latest turn, kept by angle.
//!
//! A turn is divided into equal sectors, and each sector keeps its latest measurement. The sensor
//! passes every angle again and again, so what is kept is always about one turn old. With a decay
//! time, a sector that has not been measured for longer is not shown.

use crate::reader::types::{FULL_TURN_TICKS, LidarPoint};
use crate::viewer::projection::is_in_range;
use vstd::prelude::*;

verus! {

use crate::viewer::projection::reaches;

/// The latest measurement in a sector.
#[derive(Debug, Clone, Copy, PartialEq, Eq, Structural)]
pub struct Sample {
    pub distance_mm: u16,
    pub intensity: u8,
    /// When it came in, in nanoseconds.
    pub received: u64,
}

/// A measurement that is shown, and its sector.
#[derive(Debug, Clone, Copy, PartialEq, Eq, Structural)]
pub struct VisibleSample {
    pub sector: usize,
    pub distance_mm: u16,
    pub intensity: u8,
}

/// The sector of an angle, where a turn has `bins`.
pub open spec fn sector_of(angle_ticks: u64, bins: nat) -> int {
    (angle_ticks % FULL_TURN_TICKS) as int * bins as int / FULL_TURN_TICKS as int
}

/// The sectors after one more point. A distance of 0 is no measurement.
pub open spec fn sectors_after(
    sectors: Seq<Option<Sample>>,
    point: LidarPoint,
    now: u64,
) -> Seq<Option<Sample>> {
    if point.distance_mm == 0 {
        sectors
    } else {
        sectors.update(
            sector_of(point.angle_ticks, sectors.len()),
            Some(
                Sample {
                    distance_mm: point.distance_mm,
                    intensity: point.intensity,
                    received: now,
                },
            ),
        )
    }
}

/// Whether something of this age is too old; without a decay time nothing is.
pub open spec fn expired(age: u64, decay: Option<u64>) -> bool {
    match decay {
        Some(limit) => age > limit,
        None => false,
    }
}

/// Whether something of this age, in nanoseconds, is too old.
pub fn is_expired(age: u64, decay: Option<u64>) -> (yes: bool)
    ensures
        yes == expired(age, decay),
{
    match decay {
        Some(limit) => age > limit,
        None => false,
    }
}

/// The age of a sample; 0 where the clock was read in the other order.
pub open spec fn age_of(sample: Sample, now: u64) -> u64 {
    if now >= sample.received {
        (now - sample.received) as u64
    } else {
        0
    }
}

/// Whether a sample is shown.
pub open spec fn shown(
    sample: Option<Sample>,
    max_range_mm: Option<u16>,
    decay: Option<u64>,
    now: u64,
) -> bool {
    match sample {
        Some(sample) => reaches(sample.distance_mm, max_range_mm) && !expired(
            age_of(sample, now),
            decay,
        ),
        None => false,
    }
}

/// What is shown of the first `n` sectors, in order.
pub open spec fn visible_of(
    sectors: Seq<Option<Sample>>,
    max_range_mm: Option<u16>,
    decay: Option<u64>,
    now: u64,
    n: nat,
) -> Seq<VisibleSample>
    decreases n,
{
    if n == 0 {
        Seq::empty()
    } else {
        let before = visible_of(sectors, max_range_mm, decay, now, (n - 1) as nat);
        if shown(sectors[n - 1], max_range_mm, decay, now) {
            before.push(
                VisibleSample {
                    sector: (n - 1) as usize,
                    distance_mm: sectors[n - 1]->0.distance_mm,
                    intensity: sectors[n - 1]->0.intensity,
                },
            )
        } else {
            before
        }
    }
}

/// The latest measurement of each sector.
pub struct ScanBuffer {
    buckets: Vec<Option<Sample>>,
}

/// Sectors that hold nothing.
fn empty_buckets(bins: usize) -> (buckets: Vec<Option<Sample>>)
    ensures
        buckets@ == Seq::new(bins as nat, |i: int| None::<Sample>),
{
    let mut buckets: Vec<Option<Sample>> = Vec::new();
    let mut i: usize = 0;
    while i < bins
        invariant
            i <= bins,
            buckets@ =~= Seq::new(i as nat, |k: int| None::<Sample>),
        decreases bins - i,
    {
        buckets.push(None);
        i = i + 1;
    }
    buckets
}

/// The number of sectors for a wanted number: at least 1.
pub open spec fn bins_for(bins: usize) -> usize {
    if bins == 0 {
        1
    } else {
        bins
    }
}

impl ScanBuffer {
    /// What each sector holds.
    pub closed spec fn sectors(&self) -> Seq<Option<Sample>> {
        self.buckets@
    }

    /// There is at least one sector.
    pub closed spec fn wf(&self) -> bool {
        self.buckets@.len() > 0
    }

    /// There is at least one sector.
    pub proof fn lemma_wf(&self)
        requires
            self.wf(),
        ensures
            0 < self.sectors().len(),
    {
    }

    /// A buffer of `bins` sectors, at least one, that hold nothing.
    pub fn new(bins: usize) -> (buffer: Self)
        ensures
            buffer.wf(),
            buffer.sectors() == Seq::new(bins_for(bins) as nat, |i: int| None::<Sample>),
    {
        let bins: usize = if bins == 0 {
            1
        } else {
            bins
        };
        ScanBuffer { buckets: empty_buckets(bins) }
    }

    /// The number of sectors.
    pub fn bins(&self) -> (bins: usize)
        ensures
            bins == self.sectors().len(),
    {
        self.buckets.len()
    }

    /// Changes the number of sectors. Where it changes, what was held is dropped.
    pub fn resize(&mut self, bins: usize)
        requires
            old(self).wf(),
        ensures
            final(self).wf(),
            final(self).sectors() == (if bins_for(bins) == old(self).sectors().len() {
                old(self).sectors()
            } else {
                Seq::new(bins_for(bins) as nat, |i: int| None::<Sample>)
            }),
    {
        let bins: usize = if bins == 0 {
            1
        } else {
            bins
        };
        if bins != self.buckets.len() {
            self.buckets = empty_buckets(bins);
        }
    }

    /// Takes one point that came in at the time `now`.
    pub fn ingest(&mut self, point: &LidarPoint, now: u64)
        requires
            old(self).wf(),
        ensures
            final(self).wf(),
            final(self).sectors() == sectors_after(old(self).sectors(), *point, now),
    {
        if point.distance_mm == 0 {
            return ;
        }
        let bins: usize = self.buckets.len();
        let angle: u64 = point.angle_ticks % FULL_TURN_TICKS;
        proof {
            lemma_sector_exists(point.angle_ticks, bins as nat);
            assert(angle as u128 * bins as u128 <= 3_960_000 * 0xFFFF_FFFF_FFFF_FFFF)
                by (nonlinear_arith)
                requires
                    angle < 3_960_000,
                    bins <= 0xFFFF_FFFF_FFFF_FFFF,
            ;
        }
        let index: usize = (angle as u128 * bins as u128 / FULL_TURN_TICKS as u128) as usize;
        self.buckets.set(
            index,
            Some(
                Sample {
                    distance_mm: point.distance_mm,
                    intensity: point.intensity,
                    received: now,
                },
            ),
        );
    }

    /// What is shown at the time `now`: what is near enough and not too old, by angle.
    pub fn visible_samples(
        &self,
        max_range_mm: Option<u16>,
        decay: Option<u64>,
        now: u64,
    ) -> (samples: Vec<VisibleSample>)
        requires
            self.wf(),
        ensures
            samples@ == visible_of(
                self.sectors(),
                max_range_mm,
                decay,
                now,
                self.sectors().len(),
            ),
    {
        let mut samples: Vec<VisibleSample> = Vec::new();
        let mut i: usize = 0;
        while i < self.buckets.len()
            invariant
                i <= self.buckets@.len(),
                samples@ == visible_of(self.buckets@, max_range_mm, decay, now, i as nat),
            decreases self.buckets@.len() - i,
        {
            match self.buckets[i] {
                Some(sample) => {
                    let age: u64 = if now >= sample.received {
                        now - sample.received
                    } else {
                        0
                    };
                    if is_in_range(sample.distance_mm, max_range_mm) && !is_expired(age, decay) {
                        samples.push(
                            VisibleSample {
                                sector: i,
                                distance_mm: sample.distance_mm,
                                intensity: sample.intensity,
                            },
                        );
                    }
                },
                None => {},
            }
            i = i + 1;
        }
        samples
    }
}

/// Every angle is in one of the sectors.
pub proof fn lemma_sector_exists(angle_ticks: u64, bins: nat)
    requires
        bins > 0,
    ensures
        0 <= sector_of(angle_ticks, bins) < bins,
{
    let angle = (angle_ticks % FULL_TURN_TICKS) as int;
    let full = FULL_TURN_TICKS as int;
    let n = bins as int;
    assert(0 <= angle * n < full * n) by (nonlinear_arith)
        requires
            0 <= angle < full,
            n > 0,
    ;
    assert(0 <= (angle * n) / full < n) by (nonlinear_arith)
        requires
            0 <= angle * n < full * n,
            full > 0,
    ;
}

/// The latest measurement in a sector wins, and the other sectors keep what they hold.
pub proof fn law_latest_sample_wins(
    sectors: Seq<Option<Sample>>,
    first: LidarPoint,
    second: LidarPoint,
    earlier: u64,
    later: u64,
)
    requires
        sectors.len() > 0,
        second.distance_mm != 0,
        sector_of(first.angle_ticks, sectors.len()) == sector_of(
            second.angle_ticks,
            sectors.len(),
        ),
    ensures
        sectors_after(sectors_after(sectors, first, earlier), second, later) == sectors_after(
            sectors,
            second,
            later,
        ),
{
    lemma_sector_exists(second.angle_ticks, sectors.len());
    assert(sectors_after(sectors_after(sectors, first, earlier), second, later) =~= sectors_after(
        sectors,
        second,
        later,
    ));
}

/// What is shown at a time is shown earlier too, since it came in; without a decay time it is
/// shown for ever.
pub proof fn law_samples_only_age(
    sample: Option<Sample>,
    max_range_mm: Option<u16>,
    decay: Option<u64>,
    earlier: u64,
    later: u64,
)
    requires
        earlier <= later,
    ensures
        shown(sample, max_range_mm, decay, later) ==> shown(sample, max_range_mm, decay, earlier),
        decay is None ==> shown(sample, max_range_mm, decay, later) == shown(
            sample,
            max_range_mm,
            decay,
            earlier,
        ),
{
}

/// Each sector that is shown is shown once, in the order of the angles.
pub proof fn law_visible_in_order(
    sectors: Seq<Option<Sample>>,
    max_range_mm: Option<u16>,
    decay: Option<u64>,
    now: u64,
    n: nat,
)
    requires
        n <= sectors.len() <= usize::MAX,
    ensures
        ({
            let visible = visible_of(sectors, max_range_mm, decay, now, n);
            &&& forall|i: int|
                0 <= i < visible.len() ==> {
                    let sector = (#[trigger] visible[i]).sector as int;
                    &&& sector < n
                    &&& shown(sectors[sector], max_range_mm, decay, now)
                    &&& visible[i].distance_mm == sectors[sector]->0.distance_mm
                    &&& visible[i].intensity == sectors[sector]->0.intensity
                }
            &&& forall|i: int, j: int|
                0 <= i < j < visible.len() ==> visible[i].sector < visible[j].sector
            &&& forall|s: int|
                0 <= s < n && shown(#[trigger] sectors[s], max_range_mm, decay, now) ==> exists|
                    i: int,
                |
                    0 <= i < visible.len() && (#[trigger] visible[i]).sector == s
        }),
    decreases n,
{
    if n > 0 {
        law_visible_in_order(sectors, max_range_mm, decay, now, (n - 1) as nat);
        let before = visible_of(sectors, max_range_mm, decay, now, (n - 1) as nat);
        let visible = visible_of(sectors, max_range_mm, decay, now, n);
        assert forall|s: int|
            0 <= s < n && shown(#[trigger] sectors[s], max_range_mm, decay, now) implies exists|
            i: int,
        |
            0 <= i < visible.len() && (#[trigger] visible[i]).sector == s by {
            if s < n - 1 {
                let i = choose|i: int| 0 <= i < before.len() && (#[trigger] before[i]).sector == s;
                assert(visible[i].sector == s);
            } else {
                assert(visible[visible.len() - 1].sector == s);
            }
        }
    }
}

/// Sectors are equal parts of a turn of 3,960,000 ticks, in the order of the angles, and each
/// angle is in one: of `bins` sectors, in the one that begins at or before it and ends behind it.
pub proof fn law_sectors_are_equal_parts(angle_ticks: u64, bins: nat, sector: int)
    requires
        bins > 0,
    ensures
        sector_of(angle_ticks, bins) == sector <==> sector * 3_960_000 <= (angle_ticks % 3_960_000)
            * bins < (sector + 1) * 3_960_000,
        0 <= sector_of(angle_ticks, bins) < bins,
{
    lemma_sector_exists(angle_ticks, bins);
    let product = (angle_ticks % 3_960_000) as int * bins as int;
    let found = product / 3_960_000;
    assert(found * 3_960_000 <= product < (found + 1) * 3_960_000);
}

/// What a measurement changes: its sector now holds it, with the time at which it came in, and
/// every other sector holds what it held. A distance of 0 changes nothing.
pub proof fn law_measurement_goes_into_its_sector(
    sectors: Seq<Option<Sample>>,
    point: LidarPoint,
    now: u64,
    sector: int,
)
    requires
        0 <= sector < sectors.len(),
    ensures
        ({
            let after = sectors_after(sectors, point, now);
            let meant = sector * 3_960_000 <= (point.angle_ticks % 3_960_000) * sectors.len() < (
            sector + 1) * 3_960_000;
            &&& after.len() == sectors.len()
            &&& point.distance_mm == 0 || !meant ==> after[sector] == sectors[sector]
            &&& point.distance_mm > 0 && meant ==> after[sector] is Some
                && after[sector]->0.distance_mm == point.distance_mm
                && after[sector]->0.intensity == point.intensity && after[sector]->0.received == now
        }),
{
    law_sectors_are_equal_parts(point.angle_ticks, sectors.len(), sector);
}

/// What is shown: a sample up to the limit of distance, the limit included, whose age is not above
/// the decay time; without a limit nothing is shown, and without a decay time age does not matter.
pub proof fn law_what_is_shown(sample: Sample, limit: u16, decay: u64, now: u64)
    ensures
        shown(Some(sample), Some(limit), Some(decay), now) <==> sample.distance_mm <= limit && now
            - sample.received <= decay,
        shown(Some(sample), Some(limit), None, now) <==> sample.distance_mm <= limit,
        !shown(Some(sample), None, Some(decay), now),
        !shown(Some(sample), None, None, now),
        !shown(None, Some(limit), Some(decay), now),
        !shown(None, Some(limit), None, now),
        !shown(None, None, Some(decay), now),
        !shown(None, None, None, now),
        expired(now, Some(decay)) <==> now > decay,
        !expired(now, None),
{
}

/// What is shown goes sector by sector: a sector that is shown comes behind those before it, with
/// its number, distance and strength, and one that is not shown adds nothing.
pub proof fn law_visible_goes_sector_by_sector(
    sectors: Seq<Option<Sample>>,
    limit: u16,
    decay: u64,
    now: u64,
    n: nat,
)
    requires
        n < sectors.len() <= usize::MAX,
    ensures
        ({
            let before = visible_of(sectors, Some(limit), Some(decay), now, n);
            let after = visible_of(sectors, Some(limit), Some(decay), now, n + 1);
            let sample = sectors[n as int];
            let near = sample is Some && sample->0.distance_mm <= limit && now - sample->0.received
                <= decay;
            &&& visible_of(sectors, Some(limit), Some(decay), now, 0).len() == 0
            &&& near ==> after == before.push(
                VisibleSample {
                    sector: n as usize,
                    distance_mm: sample->0.distance_mm,
                    intensity: sample->0.intensity,
                },
            )
            &&& !near ==> after == before
        }),
{
}

/// There are as many sectors as wanted, and one where none is wanted.
pub proof fn law_at_least_one_sector(bins: usize)
    ensures
        bins_for(0) == 1,
        bins > 0 ==> bins_for(bins) == bins,
{
}

} // verus!
