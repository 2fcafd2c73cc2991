//! The temporal tier algebra: 15 cadences from one minute to one year, each
//! with a slot-validity predicate and a forward normalization that lands on
//! the next valid slot.
//!
//! Day-based tiers anchor their cadence on December 31 of the preceding year,
//! so the day coordinate of a slot is the one-based ordinal of its date within
//! its own year.

use vstd::prelude::*;
use crate::datetime::DateTimeUtc;
use crate::datetime::spec_year_len;
use crate::datetime::year_len;
use crate::datetime::lemma_days_before_year_succ;
use vstd::arithmetic::div_mod::lemma_fundamental_div_mod;
use vstd::arithmetic::div_mod::lemma_mod_multiples_basic;

verus! {

/// The closed set of temporal cadences of the allocation schedule.
#[derive(Clone, Copy, Debug, PartialEq, Eq, Hash, Structural)]
pub enum Tier {
    Min1,
    Min5,
    Min10,
    Min30,
    Hour1,
    Hour3,
    Hour6,
    Hour12,
    Day1,
    Day7,
    Day15,
    Day30,
    Day90,
    Day180,
    Day365,
}

/// The granularity family of a tier.
#[derive(Clone, Copy, Debug, PartialEq, Eq, Structural)]
pub enum TierFamily {
    Minutes,
    Hours,
    Days,
}

impl Tier {
    /// The granularity family of this tier.
    pub open spec fn spec_family(self) -> TierFamily {
        match self {
            Tier::Min1 | Tier::Min5 | Tier::Min10 | Tier::Min30 => TierFamily::Minutes,
            Tier::Hour1 | Tier::Hour3 | Tier::Hour6 | Tier::Hour12 => TierFamily::Hours,
            _ => TierFamily::Days,
        }
    }

    /// The cadence base within the family: every `base` minutes, hours or days.
    pub open spec fn spec_base(self) -> int {
        match self {
            Tier::Min1 => 1,
            Tier::Min5 => 5,
            Tier::Min10 => 10,
            Tier::Min30 => 30,
            Tier::Hour1 => 1,
            Tier::Hour3 => 3,
            Tier::Hour6 => 6,
            Tier::Hour12 => 12,
            Tier::Day1 => 1,
            Tier::Day7 => 7,
            Tier::Day15 => 15,
            Tier::Day30 => 30,
            Tier::Day90 => 90,
            Tier::Day180 => 180,
            Tier::Day365 => 365,
        }
    }

    /// Length of one slot of this tier, in seconds.
    pub open spec fn spec_duration_secs(self) -> int {
        match self.spec_family() {
            TierFamily::Minutes => 60 * self.spec_base(),
            TierFamily::Hours => 3600 * self.spec_base(),
            TierFamily::Days => 86400 * self.spec_base(),
        }
    }

    /// The wire encoding of a tier: its ordinal as a single unsigned byte.
    pub open spec fn spec_byte(self) -> int {
        match self {
            Tier::Min1 => 0,
            Tier::Min5 => 1,
            Tier::Min10 => 2,
            Tier::Min30 => 3,
            Tier::Hour1 => 4,
            Tier::Hour3 => 5,
            Tier::Hour6 => 6,
            Tier::Hour12 => 7,
            Tier::Day1 => 8,
            Tier::Day7 => 9,
            Tier::Day15 => 10,
            Tier::Day30 => 11,
            Tier::Day90 => 12,
            Tier::Day180 => 13,
            Tier::Day365 => 14,
        }
    }

    /// Whether `dt` is aligned on this tier's cadence: the sub-fields below
    /// the tier's granularity are zero and the tier coordinate is a multiple
    /// of the base. Day tiers count days from December 31 of the prior year,
    /// so the coordinate is the date's ordinal within its year.
    pub open spec fn spec_is_valid_slot(self, dt: DateTimeUtc) -> bool {
        match self.spec_family() {
            TierFamily::Minutes => dt.second == 0 && dt.nanosecond == 0 && dt.minute as int
                % self.spec_base() == 0,
            TierFamily::Hours => dt.minute == 0 && dt.second == 0 && dt.nanosecond == 0
                && dt.hour as int % self.spec_base() == 0,
            TierFamily::Days => dt.hour == 0 && dt.minute == 0 && dt.second == 0 && dt.nanosecond
                == 0 && dt.spec_day_of_year() % self.spec_base() == 0,
        }
    }

    /// The granularity family of this tier.
    pub fn family(&self) -> (r: TierFamily)
        ensures
            r == self.spec_family(),
    {
        match self {
            Tier::Min1 | Tier::Min5 | Tier::Min10 | Tier::Min30 => TierFamily::Minutes,
            Tier::Hour1 | Tier::Hour3 | Tier::Hour6 | Tier::Hour12 => TierFamily::Hours,
            _ => TierFamily::Days,
        }
    }

    /// The cadence base within the family.
    pub fn base(&self) -> (r: u32)
        ensures
            r == self.spec_base(),
    {
        match self {
            Tier::Min1 => 1,
            Tier::Min5 => 5,
            Tier::Min10 => 10,
            Tier::Min30 => 30,
            Tier::Hour1 => 1,
            Tier::Hour3 => 3,
            Tier::Hour6 => 6,
            Tier::Hour12 => 12,
            Tier::Day1 => 1,
            Tier::Day7 => 7,
            Tier::Day15 => 15,
            Tier::Day30 => 30,
            Tier::Day90 => 90,
            Tier::Day180 => 180,
            Tier::Day365 => 365,
        }
    }

    /// Length of one slot of this tier, in seconds.
    pub fn tier_duration(&self) -> (r: u64)
        ensures
            r == self.spec_duration_secs(),
    {
        let b = self.base() as u64;
        match self.family() {
            TierFamily::Minutes => 60 * b,
            TierFamily::Hours => 3600 * b,
            TierFamily::Days => 86400 * b,
        }
    }

    /// The wire encoding of a tier: its ordinal as a single unsigned byte.
    pub fn tier_byte(&self) -> (r: u8)
        ensures
            r == self.spec_byte(),
    {
        match self {
            Tier::Min1 => 0,
            Tier::Min5 => 1,
            Tier::Min10 => 2,
            Tier::Min30 => 3,
            Tier::Hour1 => 4,
            Tier::Hour3 => 5,
            Tier::Hour6 => 6,
            Tier::Hour12 => 7,
            Tier::Day1 => 8,
            Tier::Day7 => 9,
            Tier::Day15 => 10,
            Tier::Day30 => 11,
            Tier::Day90 => 12,
            Tier::Day180 => 13,
            Tier::Day365 => 14,
        }
    }

    /// Seconds from `dt` to the slot `normalize_to_next` yields when `dt` is
    /// not itself aligned: the time-of-day below the tier's granularity is
    /// shed and the tier coordinate advances to the next multiple of the
    /// base. For day tiers the first conjunct of the day case holds when that
    /// next multiple still falls within `dt`'s own year; otherwise the result
    /// is the first aligned day of the following year.
    pub open spec fn spec_advance_secs(self, dt: DateTimeUtc) -> int {
        let b = self.spec_base();
        match self.spec_family() {
            TierFamily::Minutes => 60 * b - 60 * (dt.minute as int % b) - dt.second,
            TierFamily::Hours => 3600 * b - 3600 * (dt.hour as int % b) - 60 * dt.minute
                - dt.second,
            TierFamily::Days => {
                let doy = dt.spec_day_of_year();
                let tod = 3600 * dt.hour + 60 * dt.minute + dt.second;
                if doy - doy % b + b <= spec_year_len(dt.year as int) {
                    86400 * b - 86400 * (doy % b) - tod
                } else {
                    86400 * (spec_year_len(dt.year as int) - doy + b) - tod
                }
            },
        }
    }

    /// Whether `dt` is aligned on this tier's cadence.
    pub fn is_valid_slot(&self, dt: DateTimeUtc) -> (r: bool)
        requires
            dt.well_formed(),
        ensures
            r == self.spec_is_valid_slot(dt),
    {
        let b = self.base();
        match self.family() {
            TierFamily::Minutes => dt.second == 0 && dt.nanosecond == 0 && dt.minute % b == 0,
            TierFamily::Hours => dt.minute == 0 && dt.second == 0 && dt.nanosecond == 0 && dt.hour
                % b == 0,
            TierFamily::Days => {
                let doy = dt.day_of_year();
                dt.hour == 0 && dt.minute == 0 && dt.second == 0 && dt.nanosecond == 0 && doy
                    % (b as i64) == 0
            },
        }
    }

    /// Normalize `time` forward onto this tier's cadence: an aligned instant
    /// is returned unchanged, and any other instant moves to the smallest
    /// valid slot strictly after it: no valid slot lies strictly between
    /// `time` and the result. Except for a day tier whose next aligned day
    /// falls beyond the end of `time`'s year, the move is less than one
    /// tier duration plus one minute.
    pub fn normalize_to_next(&self, time: DateTimeUtc) -> (r: DateTimeUtc)
        requires
            time.well_formed(),
            time.year < 9999,
        ensures
            r.well_formed(),
            self.spec_is_valid_slot(r),
            time.spec_le(r),
            self.spec_is_valid_slot(time) <==> r == time,
            !self.spec_is_valid_slot(time) ==> time.spec_lt(r) && r.nanosecond == 0
                && r.spec_timestamp() == time.spec_timestamp() + self.spec_advance_secs(time),
            ({
                let b = self.spec_base();
                let doy = time.spec_day_of_year();
                self.spec_family() != TierFamily::Days || doy - doy % b + b <= spec_year_len(
                    time.year as int,
                )
            }) ==> r.spec_timestamp() - time.spec_timestamp() < self.spec_duration_secs() + 60,
            forall|s: DateTimeUtc|
                s.well_formed() && #[trigger] self.spec_is_valid_slot(s) && time.spec_instant_lt(
                    s,
                ) ==> !s.spec_instant_lt(r),
    {
        if self.is_valid_slot(time) {
            return time;
        }
        let b = self.base();
        let r = match self.family() {
            TierFamily::Minutes => Self::next_minute_multiple(time, b),
            TierFamily::Hours => Self::next_hour_multiple(time, b),
            TierFamily::Days => Self::next_day_multiple(time, b),
        };
        proof {
            lemma_normalize_minimal(*self, time, r);
        }
        r
    }

    /// The next instant strictly after `t` whose minute is a multiple of `b`
    /// and whose lower fields are zero.
    fn next_minute_multiple(t: DateTimeUtc, b: u32) -> (r: DateTimeUtc)
        requires
            t.well_formed(),
            t.year < 9999,
            1 <= b <= 60,
            60int % (b as int) == 0,
            !(t.second == 0 && t.nanosecond == 0 && t.minute as int % (b as int) == 0),
        ensures
            r.well_formed(),
            r.second == 0 && r.nanosecond == 0,
            r.minute as int % (b as int) == 0,
            r.spec_timestamp() == t.spec_timestamp() - t.second - 60 * (t.minute as int % (
            b as int)) + 60 * b,
    {
        let rem = t.minute % b;
        proof {
            let bi = b as int;
            let q = t.minute as int / bi;
            lemma_fundamental_div_mod(t.minute as int, bi);
            lemma_fundamental_div_mod(60, bi);
            vstd::arithmetic::div_mod::lemma_div_pos_is_pos(t.minute as int, bi);
            assert(rem <= t.minute && t.minute as int - rem + bi <= 60) by (nonlinear_arith)
                requires
                    t.minute as int == bi * q + rem,
                    60 == bi * (60int / bi),
                    0 <= rem < bi,
                    1 <= bi,
                    0 <= q,
                    t.minute <= 59,
            ;
            lemma_mod_multiples_basic(q + 1, bi);
            assert(t.minute as int - rem + bi == (q + 1) * bi) by (nonlinear_arith)
                requires
                    t.minute as int == bi * q + rem,
            ;
        }
        let mi2 = t.minute - rem + b;
        if mi2 < 60 {
            DateTimeUtc {
                year: t.year,
                month: t.month,
                day: t.day,
                hour: t.hour,
                minute: mi2,
                second: 0,
                nanosecond: 0,
            }
        } else if t.hour < 23 {
            proof {
                vstd::arithmetic::div_mod::lemma_small_mod(0, b as nat);
            }
            DateTimeUtc {
                year: t.year,
                month: t.month,
                day: t.day,
                hour: t.hour + 1,
                minute: 0,
                second: 0,
                nanosecond: 0,
            }
        } else {
            proof {
                vstd::arithmetic::div_mod::lemma_small_mod(0, b as nat);
            }
            t.next_day_midnight()
        }
    }

    /// The next instant strictly after `t` whose hour is a multiple of `b`
    /// and whose lower fields are zero.
    fn next_hour_multiple(t: DateTimeUtc, b: u32) -> (r: DateTimeUtc)
        requires
            t.well_formed(),
            t.year < 9999,
            1 <= b <= 24,
            24int % (b as int) == 0,
            !(t.minute == 0 && t.second == 0 && t.nanosecond == 0 && t.hour as int % (b as int)
                == 0),
        ensures
            r.well_formed(),
            r.minute == 0 && r.second == 0 && r.nanosecond == 0,
            r.hour as int % (b as int) == 0,
            r.spec_timestamp() == t.spec_timestamp() - t.second - 60 * t.minute - 3600 * (
            t.hour as int % (b as int)) + 3600 * b,
    {
        let rem = t.hour % b;
        proof {
            let bi = b as int;
            let q = t.hour as int / bi;
            lemma_fundamental_div_mod(t.hour as int, bi);
            lemma_fundamental_div_mod(24, bi);
            vstd::arithmetic::div_mod::lemma_div_pos_is_pos(t.hour as int, bi);
            assert(rem <= t.hour && t.hour as int - rem + bi <= 24) by (nonlinear_arith)
                requires
                    t.hour as int == bi * q + rem,
                    24 == bi * (24int / bi),
                    0 <= rem < bi,
                    1 <= bi,
                    0 <= q,
                    t.hour <= 23,
            ;
            lemma_mod_multiples_basic(q + 1, bi);
            assert(t.hour as int - rem + bi == (q + 1) * bi) by (nonlinear_arith)
                requires
                    t.hour as int == bi * q + rem,
            ;
        }
        let h2 = t.hour - rem + b;
        if h2 < 24 {
            DateTimeUtc {
                year: t.year,
                month: t.month,
                day: t.day,
                hour: h2,
                minute: 0,
                second: 0,
                nanosecond: 0,
            }
        } else {
            proof {
                vstd::arithmetic::div_mod::lemma_small_mod(0, b as nat);
            }
            t.next_day_midnight()
        }
    }

    /// The midnight strictly after `t` whose day ordinal within its year is a
    /// multiple of `b`; when no such day is left in `t`'s year, the first
    /// aligned day of the next year.
    fn next_day_multiple(t: DateTimeUtc, b: u32) -> (r: DateTimeUtc)
        requires
            t.well_formed(),
            t.year < 9999,
            1 <= b <= 365,
            !(t.hour == 0 && t.minute == 0 && t.second == 0 && t.nanosecond == 0
                && t.spec_day_of_year() % (b as int) == 0),
        ensures
            r.well_formed(),
            r.hour == 0 && r.minute == 0 && r.second == 0 && r.nanosecond == 0,
            r.spec_day_of_year() % (b as int) == 0,
            ({
                let doy = t.spec_day_of_year();
                let bi = b as int;
                let tod = 3600 * t.hour + 60 * t.minute + t.second;
                if doy - doy % bi + bi <= spec_year_len(t.year as int) {
                    r.spec_timestamp() == t.spec_timestamp() - tod - 86400 * (doy % bi) + 86400
                        * bi
                } else {
                    r.spec_timestamp() == t.spec_timestamp() - tod + 86400 * (spec_year_len(
                        t.year as int,
                    ) - doy + bi)
                }
            }),
    {
        let doy = t.day_of_year();
        let rem = doy % (b as i64);
        let doy2 = doy - rem + (b as i64);
        let yl = year_len(t.year);
        proof {
            crate::datetime::lemma_doy_bounds(t);
            let bi = b as int;
            let q = doy as int / bi;
            lemma_fundamental_div_mod(doy as int, bi);
            lemma_mod_multiples_basic(q + 1, bi);
            assert(doy2 as int == (q + 1) * bi) by (nonlinear_arith)
                requires
                    doy as int == bi * q + rem,
                    doy2 == doy - rem + b,
                    bi == b,
            ;
        }
        if doy2 <= yl {
            DateTimeUtc::from_yearday(t.year, doy2)
        } else {
            proof {
                vstd::arithmetic::div_mod::lemma_mod_self_0(b as int);
                lemma_days_before_year_succ(t.year as int);
            }
            DateTimeUtc::from_yearday(t.year + 1, b as i64)
        }
    }
}

/// An instant aligned on a minute cadence has a timestamp that is a
/// multiple of the cadence in seconds.
proof fn lemma_minutes_aligned_mod(u: DateTimeUtc, b: int)
    requires
        u.well_formed(),
        1 <= b,
        60int % b == 0,
        u.second == 0,
        u.minute as int % b == 0,
    ensures
        u.spec_timestamp() % (60 * b) == 0,
{
    let m = 60 * b;
    lemma_fundamental_div_mod(60, b);
    lemma_fundamental_div_mod(u.minute as int, b);
    let c = 60int / b;
    let q = u.minute as int / b;
    let k = u.spec_day_number() * 24 * c + u.hour * c + q;
    assert(u.spec_timestamp() == k * m) by (nonlinear_arith)
        requires
            60 == b * c,
            u.minute as int == b * q,
            m == 60 * b,
            u.second == 0,
            k == u.spec_day_number() * 24 * c + u.hour * c + q,
            u.spec_timestamp() == u.spec_day_number() * 86400 + u.hour * 3600 + u.minute * 60
                + u.second,
    ;
    lemma_mod_multiples_basic(k, m);
}

/// An instant aligned on an hour cadence has a timestamp that is a
/// multiple of the cadence in seconds.
proof fn lemma_hours_aligned_mod(u: DateTimeUtc, b: int)
    requires
        u.well_formed(),
        1 <= b,
        24int % b == 0,
        u.minute == 0,
        u.second == 0,
        u.hour as int % b == 0,
    ensures
        u.spec_timestamp() % (3600 * b) == 0,
{
    let m = 3600 * b;
    lemma_fundamental_div_mod(24, b);
    lemma_fundamental_div_mod(u.hour as int, b);
    let c = 24int / b;
    let q = u.hour as int / b;
    let k = u.spec_day_number() * c + q;
    assert(u.spec_timestamp() == k * m) by (nonlinear_arith)
        requires
            24 == b * c,
            u.hour as int == b * q,
            m == 3600 * b,
            u.minute == 0,
            u.second == 0,
            k == u.spec_day_number() * c + q,
            u.spec_timestamp() == u.spec_day_number() * 86400 + u.hour * 3600 + u.minute * 60
                + u.second,
    ;
    lemma_mod_multiples_basic(k, m);
}

/// Among the multiples of `m`, `rv` is the least one strictly above `x`:
/// any other multiple strictly above `x` is at least `rv`.
proof fn lemma_least_multiple(x: int, m: int, rv: int, sv: int)
    requires
        1 <= m,
        rv % m == 0,
        sv % m == 0,
        x < rv <= x + m,
        x < sv,
    ensures
        sv >= rv,
{
    if sv < rv {
        lemma_fundamental_div_mod(rv, m);
        lemma_fundamental_div_mod(sv, m);
        let q1 = rv / m;
        let q2 = sv / m;
        assert(false) by (nonlinear_arith)
            requires
                rv == m * q1,
                sv == m * q2,
                0 < rv - sv < m,
                1 <= m,
        ;
    }
}

/// The slot `normalize_to_next` yields is the least valid slot strictly
/// after an unaligned instant: every valid slot strictly after `t` is at
/// or after `r`.
#[verifier::rlimit(60)]
#[verifier::spinoff_prover]
proof fn lemma_normalize_minimal(tier: Tier, t: DateTimeUtc, r: DateTimeUtc)
    requires
        t.well_formed(),
        r.well_formed(),
        tier.spec_is_valid_slot(r),
        !tier.spec_is_valid_slot(t),
        r.nanosecond == 0,
        r.spec_timestamp() == t.spec_timestamp() + tier.spec_advance_secs(t),
    ensures
        forall|s: DateTimeUtc|
            s.well_formed() && tier.spec_is_valid_slot(s) && t.spec_instant_lt(s)
                ==> !s.spec_instant_lt(r),
{
    let b = tier.spec_base();
    assert forall|s: DateTimeUtc|
        s.well_formed() && tier.spec_is_valid_slot(s) && t.spec_instant_lt(s) implies !s.spec_instant_lt(
        r,
    ) by {
        assert(t.spec_timestamp() < s.spec_timestamp());
        match tier.spec_family() {
            TierFamily::Minutes => {
                let m = 60 * b;
                lemma_minutes_aligned_mod(s, b);
                lemma_minutes_aligned_mod(r, b);
                assert(t.spec_timestamp() < r.spec_timestamp() <= t.spec_timestamp() + m);
                lemma_least_multiple(
                    t.spec_timestamp(),
                    m,
                    r.spec_timestamp(),
                    s.spec_timestamp(),
                );
            },
            TierFamily::Hours => {
                let m = 3600 * b;
                lemma_hours_aligned_mod(s, b);
                lemma_hours_aligned_mod(r, b);
                assert(t.spec_timestamp() < r.spec_timestamp() <= t.spec_timestamp() + m);
                lemma_least_multiple(
                    t.spec_timestamp(),
                    m,
                    r.spec_timestamp(),
                    s.spec_timestamp(),
                );
            },
            TierFamily::Days => {
                let y = t.year as int;
                let ys = s.year as int;
                let doy = t.spec_day_of_year();
                let rem = doy % b;
                let yl = spec_year_len(y);
                let tod = 3600 * t.hour + 60 * t.minute + t.second;
                let dnt = t.spec_day_number();
                let dns = s.spec_day_number();
                crate::datetime::lemma_doy_bounds(t);
                crate::datetime::lemma_doy_bounds(s);
                assert(s.spec_timestamp() == dns * 86400);
                assert(dns >= dnt + 1) by {
                    assert(dns * 86400 > dnt * 86400 + tod);
                }
                let crossing = !(doy - rem + b <= yl);
                let d_steps = if crossing {
                    yl - doy + b
                } else {
                    b - rem
                };
                assert(r.spec_timestamp() == (dnt + d_steps) * 86400) by (nonlinear_arith)
                    requires
                        r.spec_timestamp() == t.spec_timestamp() + 86400 * d_steps - tod,
                        t.spec_timestamp() == dnt * 86400 + tod,
                ;
                if ys < y {
                    crate::datetime::lemma_days_before_year_succ(ys);
                    crate::datetime::lemma_days_before_year_monotone(ys + 1, y);
                    assert(false);
                } else if ys == y {
                    assert(dns - dnt == s.spec_day_of_year() - doy);
                    lemma_least_multiple(doy, b, doy - rem + b, s.spec_day_of_year());
                    if crossing {
                        assert(false);
                    } else {
                        assert(dns >= dnt + d_steps);
                    }
                } else {
                    crate::datetime::lemma_days_before_year_monotone(y + 1, ys);
                    crate::datetime::lemma_days_before_year_succ(y);
                    if !crossing {
                        assert(dns >= dnt + d_steps);
                    } else {
                        if ys == y + 1 {
                            assert(s.spec_day_of_year() >= b) by {
                                lemma_fundamental_div_mod(s.spec_day_of_year(), b);
                                let q = s.spec_day_of_year() / b;
                                assert(q >= 1) by (nonlinear_arith)
                                    requires
                                        s.spec_day_of_year() == b * q,
                                        s.spec_day_of_year() >= 1,
                                        b >= 1,
                                ;
                                assert(b * q >= b) by (nonlinear_arith)
                                    requires
                                        q >= 1,
                                        b >= 1,
                                ;
                            }
                            assert(dns >= dnt + d_steps);
                        } else {
                            crate::datetime::lemma_days_before_year_monotone(y + 2, ys);
                            crate::datetime::lemma_days_before_year_succ(y + 1);
                            assert(dns >= dnt + d_steps);
                        }
                    }
                }
                assert(s.spec_timestamp() >= r.spec_timestamp()) by (nonlinear_arith)
                    requires
                        s.spec_timestamp() == dns * 86400,
                        r.spec_timestamp() == (dnt + d_steps) * 86400,
                        dns >= dnt + d_steps,
                ;
            },
        }
    }
}

} // verus!
