//! Local hours: where the hour that an instant falls into started.
//!
//! A local hour is told apart by its date, its hour and its offset from UTC, so that an hour
//! that a change of offset repeats counts as two. It starts where the clock showed the full
//! hour, or at the change of offset that cut it.
use jiff::tz::TimeZone;
use vstd::prelude::*;

use crate::calendar::{
    as_millisecond, date_of_day, datetime_at, day_at, earlier_hour_start, hour_at, instant_at,
    is_instant, later_hour_start, lemma_date_of_day, local_time, offset_at, transition_following,
    transition_preceding, whole_milliseconds, zone_data, zone_earlier, zone_following, zone_later,
    zone_offset, zone_preceding, CivilDate, EPOCH_DAY, MAX_MILLISECOND, MIN_SECOND,
};

verus! {

/// A local hour.
#[derive(Debug, Clone, Copy, PartialEq, Eq, Structural)]
pub struct LocalHour {
    pub date: CivilDate,
    pub hour: i8,
    pub offset: i32,
}

/// An instant and the local hour that it falls into.
#[derive(Debug, Clone, Copy, PartialEq, Eq, Structural)]
pub struct HourCandidate {
    pub instant: i128,
    pub local: LocalHour,
}

/// The earliest candidate that is not behind an instant and falls into the same local hour.
pub open spec fn earliest_start(
    candidates: Seq<HourCandidate>,
    instant: i128,
    local: LocalHour,
) -> Option<i128>
    decreases candidates.len(),
{
    if candidates.len() == 0 {
        None
    } else {
        let best = earliest_start(candidates.drop_last(), instant, local);
        let last = candidates.last();
        if last.instant > instant || last.local != local {
            best
        } else {
            match best {
                Some(best) if best <= last.instant => Some(best),
                _ => Some(last.instant),
            }
        }
    }
}

/// Picks the earliest candidate that is not behind an instant and falls into the same local
/// hour.
pub fn earliest_hour_start(
    candidates: &Vec<HourCandidate>,
    instant: i128,
    local: LocalHour,
) -> (best: Option<i128>)
    ensures
        best == earliest_start(candidates@, instant, local),
{
    let mut best: Option<i128> = None;
    let mut i: usize = 0;
    while i < candidates.len()
        invariant
            i <= candidates@.len(),
            best == earliest_start(candidates@.take(i as int), instant, local),
        decreases candidates@.len() - i,
    {
        proof {
            assert(candidates@.take(i + 1).drop_last() =~= candidates@.take(i as int));
            assert(candidates@.take(i + 1).last() == candidates@[i as int]);
        }
        let candidate = candidates[i];
        if candidate.instant <= instant && candidate.local == local {
            best = match best {
                Some(found) => if found <= candidate.instant {
                    Some(found)
                } else {
                    Some(candidate.instant)
                },
                None => Some(candidate.instant),
            };
        }
        i = i + 1;
    }
    assert(candidates@.take(i as int) =~= candidates@);
    best
}

/// The earliest start is a candidate that qualifies, and none that qualifies is earlier.
pub proof fn lemma_earliest_start(
    candidates: Seq<HourCandidate>,
    instant: i128,
    local: LocalHour,
)
    ensures
        match earliest_start(candidates, instant, local) {
            Some(best) => {
                &&& best <= instant
                &&& exists|i: int|
                    0 <= i < candidates.len() && (#[trigger] candidates[i]).instant == best
                        && candidates[i].local == local
                &&& forall|i: int|
                    0 <= i < candidates.len() && (#[trigger] candidates[i]).instant <= instant
                        && candidates[i].local == local ==> best <= candidates[i].instant
            },
            None => forall|i: int|
                0 <= i < candidates.len() ==> (#[trigger] candidates[i]).instant > instant
                    || candidates[i].local != local,
        },
    decreases candidates.len(),
{
    if candidates.len() > 0 {
        let before = candidates.drop_last();
        lemma_earliest_start(before, instant, local);
        let last = candidates[candidates.len() - 1];
        assert(last == candidates.last());
        assert forall|i: int| 0 <= i < before.len() implies before[i] == candidates[i] by {}
        if let Some(best) = earliest_start(before, instant, local) {
            let i = choose|i: int|
                0 <= i < before.len() && (#[trigger] before[i]).instant == best && before[i].local
                    == local;
            assert(candidates[i].instant == best && candidates[i].local == local);
        }
        assert forall|i: int|
            0 <= i < candidates.len() && (#[trigger] candidates[i]).instant <= instant
                && candidates[i].local == local implies earliest_start(candidates, instant, local)
            matches Some(best) && best <= candidates[i].instant by {
            if i < before.len() {
                assert(before[i] == candidates[i]);
            }
        }
    }
}

/// The local hour that an instant falls into by the offset that TZif data gives for it.
pub open spec fn local_hour(data: Seq<u8>, instant: int) -> LocalHour {
    let local = local_time(data, instant);
    LocalHour {
        date: date_of_day(day_at(local)),
        hour: hour_at(local) as i8,
        offset: zone_offset(data, instant),
    }
}

/// Whether an instant falls into a local hour.
pub open spec fn falls_into(instant: int, local: LocalHour) -> bool {
    let time = instant + local.offset * 1_000_000_000;
    &&& local.date.valid()
    &&& local.date.day_number() == day_at(time)
    &&& local.hour == hour_at(time)
}

/// Instants that fall into the same local hour are less than an hour apart.
pub proof fn lemma_within_an_hour(a: int, b: int, local: LocalHour)
    requires
        falls_into(a, local),
        falls_into(b, local),
    ensures
        -3_600_000_000_000 < a - b < 3_600_000_000_000,
{
}

/// Instants of a local hour are less than an hour apart in whole milliseconds too: a local hour
/// begins at a whole second, because offsets are whole seconds.
pub proof fn lemma_within_an_hour_in_milliseconds(a: int, b: int, local: LocalHour)
    requires
        falls_into(a, local),
        falls_into(b, local),
    ensures
        b < (whole_milliseconds(a) + 3_600_000) * 1_000_000,
{
    let start = (local.date.day_number() - EPOCH_DAY) * 86_400_000 + local.hour * 3_600_000
        - local.offset * 1_000;
    assert(start * 1_000_000 <= a);
    assert(b < (start + 3_600_000) * 1_000_000);
    assert(start <= whole_milliseconds(a));
}

/// A list with one more candidate, if there is one.
pub open spec fn with_candidate(
    candidates: Seq<HourCandidate>,
    data: Seq<u8>,
    instant: Option<i128>,
) -> Seq<HourCandidate> {
    match instant {
        Some(instant) => candidates.push(
            HourCandidate { instant, local: local_hour(data, instant as int) },
        ),
        None => candidates,
    }
}

/// The instants at which a local hour may have started: the full hour by either of its readings,
/// the first transition that is not before the instant's millisecond, and the last transition
/// before the instant.
pub open spec fn hour_candidates(data: Seq<u8>, instant: int, local: LocalHour) -> Seq<
    HourCandidate,
> {
    let date = local.date;
    let before = (whole_milliseconds(instant) - 1) * 1_000_000;
    let candidates = Seq::empty();
    let candidates = with_candidate(
        candidates,
        data,
        zone_earlier(data, date.year, date.month, date.day, local.hour),
    );
    let candidates = with_candidate(
        candidates,
        data,
        zone_later(data, date.year, date.month, date.day, local.hour),
    );
    let candidates = with_candidate(candidates, data, zone_following(data, before));
    with_candidate(candidates, data, zone_preceding(data, instant))
}

/// The local hour of an instant.
pub(crate) fn read_local_hour(zone: &TimeZone, instant: i128) -> (local: LocalHour)
    requires
        is_instant(instant as int),
    ensures
        local == local_hour(zone_data(*zone), instant as int),
        falls_into(instant as int, local),
        0 <= local.hour <= 23,
{
    let (date, hour) = datetime_at(zone, instant);
    proof {
        lemma_date_of_day(date);
    }
    LocalHour { date, hour, offset: offset_at(zone, instant) }
}

/// Whether every candidate falls into its local hour.
pub open spec fn all_fall_into(candidates: Seq<HourCandidate>) -> bool {
    forall|i: int|
        0 <= i < candidates.len() ==> falls_into(
            (#[trigger] candidates[i]).instant as int,
            candidates[i].local,
        )
}

fn push_candidate(candidates: &mut Vec<HourCandidate>, zone: &TimeZone, instant: Option<i128>)
    requires
        instant matches Some(instant) ==> is_instant(instant as int),
        all_fall_into(old(candidates)@),
    ensures
        final(candidates)@ == with_candidate(old(candidates)@, zone_data(*zone), instant),
        all_fall_into(final(candidates)@),
{
    if let Some(instant) = instant {
        candidates.push(HourCandidate { instant, local: read_local_hour(zone, instant) });
    }
}

/// The instant of a millisecond.
pub(crate) fn timestamp_from_millisecond(millisecond: i64) -> (instant: Result<i128, jiff::Error>)
    ensures
        instant is Ok <==> MIN_SECOND * 1000 <= millisecond <= MAX_MILLISECOND,
        instant matches Ok(found) ==> found == millisecond * 1_000_000 && is_instant(found as int),
{
    let wide: i128 = millisecond as i128;
    let second: i128 = if wide >= 0 {
        wide / 1000
    } else {
        -((999 - wide) / 1000)
    };
    let part: i128 = wide - second * 1000;
    assert(0 <= part < 1000);
    instant_at(second as i64, (part * 1_000_000) as i32)
}

/// The start of the local hour that an instant falls into, in milliseconds, if one of the
/// candidates qualifies.
pub(crate) fn bucket_start(zone: &TimeZone, instant: i128, local: LocalHour) -> (start: Option<i64>)
    requires
        is_instant(instant as int),
        0 <= instant,
        falls_into(instant as int, local),
        0 <= local.hour <= 23,
    ensures
        match earliest_start(
            hour_candidates(zone_data(*zone), instant as int, local),
            instant,
            local,
        ) {
            Some(best) => start == Some(whole_milliseconds(best as int) as i64),
            None => start is None,
        },
        start matches Some(start) ==> start * 1_000_000 <= instant < (start + 3_600_000)
            * 1_000_000,
{
    let ghost data = zone_data(*zone);
    let before = match timestamp_from_millisecond(as_millisecond(instant) - 1) {
        Ok(before) => before,
        Err(_) => return None,
    };
    let mut candidates: Vec<HourCandidate> = Vec::new();
    push_candidate(&mut candidates, zone, earlier_hour_start(zone, local.date, local.hour));
    push_candidate(&mut candidates, zone, later_hour_start(zone, local.date, local.hour));
    push_candidate(&mut candidates, zone, transition_following(zone, before));
    push_candidate(&mut candidates, zone, transition_preceding(zone, instant));
    proof {
        assert(before == (whole_milliseconds(instant as int) - 1) * 1_000_000);
        assert(candidates@ == hour_candidates(data, instant as int, local));
    }
    match earliest_hour_start(&candidates, instant, local) {
        Some(best) => {
            proof {
                lemma_earliest_start(candidates@, instant, local);
                let i = choose|i: int|
                    0 <= i < candidates@.len() && (#[trigger] candidates@[i]).instant == best
                        && candidates@[i].local == local;
                assert(falls_into(candidates@[i].instant as int, candidates@[i].local));
                lemma_within_an_hour_in_milliseconds(best as int, instant as int, local);
            }
            Some(as_millisecond(best))
        },
        None => None,
    }
}

/// The local hour of an instant is that of the zone's clock: it shows the instant moved by the
/// zone's offset, in days since the first of January 1970 and hours of the day.
pub proof fn lemma_clocks(data: Seq<u8>, instant: int, date: CivilDate)
    requires
        date.valid(),
        date.day_number() == 719_163 + (instant + zone_offset(data, instant) * 1_000_000_000)
            / 86_400_000_000_000,
    ensures
        ({
            let shown = instant + zone_offset(data, instant) * 1_000_000_000;
            let local = local_hour(data, instant);
            &&& local.offset == zone_offset(data, instant)
            &&& local.date == date
            &&& 0 <= local.hour <= 23
            &&& local.hour * 3_600_000_000_000 <= shown % 86_400_000_000_000 < (local.hour + 1)
                * 3_600_000_000_000
        }),
        falls_into(instant, local_hour(data, instant)),
{
    lemma_date_of_day(date);
}

} // verus!
