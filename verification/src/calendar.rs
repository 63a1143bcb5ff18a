//! The civil year of a moment.
use vstd::prelude::*;

verus! {

/// Whether a year of the Gregorian calendar has a 29th of February.
pub open spec fn leap(y: int) -> bool {
    y % 4 == 0 && (y % 100 != 0 || y % 400 == 0)
}

/// Days from the start of 1970 to the start of year `y`, from 1970 on.
pub open spec fn new_year(y: int) -> int
    decreases y - 1970,
{
    if y <= 1970 {
        0
    } else {
        new_year(y - 1) + if leap(y - 1) {
            366int
        } else {
            365
        }
    }
}

/// Day `days` after the first of 1970 lies in year `y`.
pub open spec fn in_year(days: int, y: int) -> bool {
    1970 <= y && new_year(y) <= days < new_year(y + 1)
}

/// Leap years from year 1 up to, not counting, year `y`.
spec fn leaps_before(y: int) -> int {
    (y - 1) / 4 - (y - 1) / 100 + (y - 1) / 400
}

proof fn new_year_in_closed_form(y: int)
    requires
        y >= 1970,
    ensures
        new_year(y) == 365 * (y - 1970) + leaps_before(y) - leaps_before(1970),
    decreases y - 1970,
{
    if y > 1970 {
        new_year_in_closed_form(y - 1);
        assert(leaps_before(y) - leaps_before(y - 1) == if leap(y - 1) {
            1int
        } else {
            0
        });
    }
}

/// Years last at least a day, so a day lies in one year only.
pub proof fn a_day_lies_in_one_year(days: int, y: int, z: int)
    requires
        in_year(days, y),
        in_year(days, z),
    ensures
        y == z,
{
    if y < z {
        new_years_ascend(y + 1, z);
    } else if z < y {
        new_years_ascend(z + 1, y);
    }
}

proof fn new_years_ascend(y: int, z: int)
    requires
        1970 <= y <= z,
    ensures
        new_year(y) <= new_year(z),
    decreases z - y,
{
    if y < z {
        new_years_ascend(y, z - 1);
    }
}

/// The year of an era of 400 March-based years that day `doe` of it lies in.
proof fn year_of_era(doe: int)
    requires
        0 <= doe < 146_097,
    ensures
        ({
            let yoe = (doe - doe / 1460 + doe / 36_524 - doe / 146_096) / 365;
            let doy = doe - (365 * yoe + yoe / 4 - yoe / 100);
            &&& 0 <= yoe <= 399
            &&& 0 <= doy <= 365
            &&& doy == 365 ==> (yoe + 1) % 4 == 0 && ((yoe + 1) % 100 != 0 || yoe == 399)
        }),
{
}

proof fn leaps_repeat(y: int, era: int)
    ensures
        leaps_before(y + 400 * era) == leaps_before(y) + 97 * era,
{
    assert((y - 1 + 400 * era) / 4 == (y - 1) / 4 + 100 * era);
    assert((y - 1 + 400 * era) / 100 == (y - 1) / 100 + 4 * era);
    assert((y - 1 + 400 * era) / 400 == (y - 1) / 400 + era);
}

/// Day `doy` of the March-based year `yoe` of an era lies in the civil year
/// of that number, or from January on in the next.
proof fn march_year_to_civil(days: int, era: int, yoe: int, doy: int)
    requires
        days >= 0,
        era >= 0,
        0 <= yoe <= 399,
        0 <= doy <= 365,
        doy == 365 ==> (yoe + 1) % 4 == 0 && ((yoe + 1) % 100 != 0 || yoe == 399),
        days + 719_468 == 146_097 * era + 365 * yoe + yoe / 4 - yoe / 100 + doy,
    ensures
        in_year(
            days,
            yoe + 400 * era + if doy >= 306 {
                1int
            } else {
                0
            },
        ),
{
    let y = yoe + 400 * era;
    leaps_repeat(yoe, era);
    leaps_repeat(yoe + 1, era);
    leaps_repeat(yoe + 2, era);
    assert(leaps_before(1970) == 477);
    assert(leaps_before(yoe + 1) == yoe / 4 - yoe / 100 + yoe / 400);
    assert(yoe / 400 == 0);
    let next = leaps_before(yoe + 2) - leaps_before(yoe + 1);
    assert(0 <= next <= 1);
    let here = leaps_before(yoe + 1) - leaps_before(yoe);
    assert(0 <= here <= 1);
    assert(doy == 365 ==> next == 1);
    let r = y + if doy >= 306 {
        1int
    } else {
        0
    };
    if r < 1970 {
        // a year before 1970 ends before the day counted from
        assert(y <= 1969);
        assert(era <= 4);
        assert(leaps_before(yoe + 1) <= yoe / 4);
        leaps_ascend(y + 1, 1970);
        assert(false);
    }
    new_year_in_closed_form(r);
    new_year_in_closed_form(r + 1);
}

proof fn leaps_ascend(y: int, z: int)
    requires
        y <= z,
    ensures
        leaps_before(y) <= leaps_before(z),
    decreases z - y,
{
    if y < z {
        leaps_ascend(y, z - 1);
    }
}

/// The civil year of day `days` after the first of 1970 (Hinnant's
/// algorithm over eras of 400 years that start in March).
pub fn year_of_day(days: u64) -> (y: i64)
    requires
        days <= 0x1_0000_0000_0000,
    ensures
        in_year(days as int, y as int),
{
    let z: i64 = days as i64 + 719_468;
    let era: i64 = z / 146_097;
    let doe: i64 = z % 146_097;
    let yoe: i64 = (doe - doe / 1460 + doe / 36_524 - doe / 146_096) / 365;
    proof {
        year_of_era(doe as int);
    }
    let doy: i64 = doe - (365 * yoe + yoe / 4 - yoe / 100);
    let y: i64 = yoe + era * 400;
    let r: i64 = if doy >= 306 {
        y + 1
    } else {
        y
    };
    proof {
        march_year_to_civil(days as int, era as int, yoe as int, doy as int);
    }
    r
}

/// `SystemTime::elapsed` of `UNIX_EPOCH`: whole seconds from the start of 1970
/// to the clock's now, nothing where the clock is set before that. What the
/// clock says is left open.
#[verifier::external_body]
pub(crate) fn epoch_seconds() -> (r: Option<u64>)
{
    std::time::UNIX_EPOCH.elapsed().map(|d| d.as_secs()).ok()
}

/// The day, counted from the first of 1970, of a clock reading in seconds
/// since its start; a clock set before that counts as its start.
pub open spec fn day_of(seconds: Option<u64>) -> int {
    match seconds {
        Some(s) => s as int / 86_400,
        None => 0,
    }
}

/// The year of a clock reading.
pub fn year_at(seconds: Option<u64>) -> (y: i64)
    ensures
        in_year(day_of(seconds), y as int),
{
    let days: u64 = match seconds {
        Some(s) => s / 86_400,
        None => 0,
    };
    year_of_day(days)
}

/// The civil year the system clock is in.
pub fn current_year() -> (y: i64)
    ensures
        exists|seconds: Option<u64>| in_year(#[trigger] day_of(seconds), y as int),
{
    let seconds = epoch_seconds();
    year_at(seconds)
}

/// A year has 366 days if it is divisible by 4, but of full centuries only
/// every fourth; otherwise it has 365.
pub proof fn leap_years_are_longer(y: int)
    requires
        y >= 1970,
    ensures
        new_year(1970) == 0,
        new_year(y + 1) - new_year(y) == 365 || new_year(y + 1) - new_year(y) == 366,
        new_year(y + 1) - new_year(y) == 366 <==> (y % 4 == 0 && y % 100 != 0) || y % 400 == 0,
{
}

/// A clock reading lies on the day that has begun by then and not ended.
pub proof fn a_reading_lies_on_its_day(seconds: u64)
    ensures
        86_400 * day_of(Some(seconds)) <= seconds < 86_400 * (day_of(Some(seconds)) + 1),
        day_of(None) == 0,
{
}

} // verus!
