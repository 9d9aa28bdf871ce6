//! The types the kernel uses for keeping track of time, modelled on the standard library's
//! `std::time` module.

use vstd::prelude::*;

verus! {

/// The number of nanoseconds in a second.
pub const NANOS_PER_SEC: u64 = 1_000_000_000;

/// Represents a number of Hertz.
#[derive(Debug, Default, Clone, Copy, PartialEq, Eq, Structural, PartialOrd, Ord)]
pub struct Hertz(pub u32);

/// Represents a number of milliseconds.
#[derive(Debug, Default, Clone, Copy, PartialEq, Eq, Structural, PartialOrd, Ord)]
pub struct Millisecs(pub u64);

/// Represents a number of nanoseconds.
#[derive(Debug, Default, Clone, Copy, PartialEq, Eq, Structural, PartialOrd, Ord)]
pub struct Nanosecs(pub u64);

/// Represents a number of femtoseconds.
#[derive(Debug, Default, Clone, Copy, PartialEq, Eq, Structural, PartialOrd, Ord)]
pub struct Femtosecs(pub u64);

/// Converts a frequency in Hertz to a period (rounded up) in femtoseconds.
pub fn hz_to_fs(freq: Hertz) -> (r: Femtosecs)
    requires
        freq.0 > 0,
    ensures
        r.0 == (1_000_000_000_000_000 + freq.0 - 1) / (freq.0 as int),
{
    Femtosecs((1_000_000_000_000_000 + (freq.0 as u64) - 1) / (freq.0 as u64))
}

impl Hertz {
    /// Adds `other` to `self`, wrapping around on overflow.
    pub fn wrapping_add(self, other: Hertz) -> (r: Hertz)
        ensures
            r.0 == vstd::wrapping::u32_specs::wrapping_add(self.0, other.0),
    {
        Hertz(self.0.wrapping_add(other.0))
    }

    /// Subtracts `other` from `self`, wrapping around on underflow.
    pub fn wrapping_sub(self, other: Hertz) -> (r: Hertz)
        ensures
            r.0 == vstd::wrapping::u32_specs::wrapping_sub(self.0, other.0),
    {
        Hertz(self.0.wrapping_sub(other.0))
    }
}

impl Millisecs {
    /// Adds `other` to `self`, wrapping around on overflow.
    pub fn wrapping_add(self, other: Millisecs) -> (r: Millisecs)
        ensures
            r.0 == vstd::wrapping::u64_specs::wrapping_add(self.0, other.0),
    {
        Millisecs(self.0.wrapping_add(other.0))
    }

    /// Subtracts `other` from `self`, wrapping around on underflow.
    pub fn wrapping_sub(self, other: Millisecs) -> (r: Millisecs)
        ensures
            r.0 == vstd::wrapping::u64_specs::wrapping_sub(self.0, other.0),
    {
        Millisecs(self.0.wrapping_sub(other.0))
    }
}

impl Nanosecs {
    /// Adds `other` to `self`, wrapping around on overflow.
    pub fn wrapping_add(self, other: Nanosecs) -> (r: Nanosecs)
        ensures
            r.0 == vstd::wrapping::u64_specs::wrapping_add(self.0, other.0),
    {
        Nanosecs(self.0.wrapping_add(other.0))
    }

    /// Subtracts `other` from `self`, wrapping around on underflow.
    pub fn wrapping_sub(self, other: Nanosecs) -> (r: Nanosecs)
        ensures
            r.0 == vstd::wrapping::u64_specs::wrapping_sub(self.0, other.0),
    {
        Nanosecs(self.0.wrapping_sub(other.0))
    }
}

impl Femtosecs {
    /// Adds `other` to `self`, wrapping around on overflow.
    pub fn wrapping_add(self, other: Femtosecs) -> (r: Femtosecs)
        ensures
            r.0 == vstd::wrapping::u64_specs::wrapping_add(self.0, other.0),
    {
        Femtosecs(self.0.wrapping_add(other.0))
    }

    /// Subtracts `other` from `self`, wrapping around on underflow.
    pub fn wrapping_sub(self, other: Femtosecs) -> (r: Femtosecs)
        ensures
            r.0 == vstd::wrapping::u64_specs::wrapping_sub(self.0, other.0),
    {
        Femtosecs(self.0.wrapping_sub(other.0))
    }
}

/// A span of time: whole seconds and the nanoseconds beyond them.
#[derive(Debug, Clone, Copy, PartialEq, Eq, Structural)]
pub struct Duration {
    secs: u64,
    nanos: u32,
}

impl Duration {
    /// The length of this span in nanoseconds.
    pub closed spec fn total_nanos(&self) -> int {
        self.secs * NANOS_PER_SEC + self.nanos
    }

    /// A span of time is at least nothing and less than `u64::MAX + 1` seconds.
    pub proof fn lemma_total_nanos_bounds(&self)
        requires
            self.wf(),
        ensures
            0 <= self.total_nanos() < (u64::MAX as int + 1) * 1_000_000_000,
    {
        assert(self.secs * NANOS_PER_SEC <= u64::MAX as int * 1_000_000_000) by (nonlinear_arith)
            requires self.secs <= u64::MAX, NANOS_PER_SEC == 1_000_000_000;
    }

    /// Whether the nanoseconds beyond the whole seconds are fewer than a second.
    pub closed spec fn wf(&self) -> bool {
        self.nanos < NANOS_PER_SEC
    }

    /// Makes a span of `secs` seconds and `nanos` nanoseconds; nanoseconds beyond a second carry
    /// into the seconds.
    pub fn new(secs: u64, nanos: u32) -> (d: Duration)
        requires
            secs + (nanos as u64) / NANOS_PER_SEC <= u64::MAX,
        ensures
            d.total_nanos() == secs * NANOS_PER_SEC + nanos,
            d.wf(),
    {
        let extra = (nanos as u64) / NANOS_PER_SEC;
        Duration { secs: secs + extra, nanos: ((nanos as u64) % NANOS_PER_SEC) as u32 }
    }

    /// Makes a span of `nanos` nanoseconds.
    pub fn from_nanos(nanos: u64) -> (d: Duration)
        ensures
            d.total_nanos() == nanos,
            d.wf(),
    {
        Duration { secs: nanos / NANOS_PER_SEC, nanos: (nanos % NANOS_PER_SEC) as u32 }
    }

    /// Returns the number of whole seconds in this span.
    pub fn as_secs(&self) -> (r: u64)
        requires
            self.wf(),
        ensures
            r == self.total_nanos() / (NANOS_PER_SEC as int),
    {
        self.secs
    }

    /// Returns the nanoseconds beyond the whole seconds of this span.
    pub fn subsec_nanos(&self) -> (r: u32)
        requires
            self.wf(),
        ensures
            r == self.total_nanos() % (NANOS_PER_SEC as int),
    {
        self.nanos
    }

    /// Returns the length of this span in nanoseconds.
    pub fn as_nanos(&self) -> (r: u128)
        ensures
            r == self.total_nanos(),
    {
        proof {
            let s = self.secs;
            assert(s * 1_000_000_000 <= u64::MAX * 1_000_000_000) by (nonlinear_arith)
                requires s <= u64::MAX;
        }
        (self.secs as u128) * (NANOS_PER_SEC as u128) + (self.nanos as u128)
    }

    /// Returns the number of whole milliseconds in this span.
    pub fn as_millis(&self) -> (r: u128)
        requires
            self.wf(),
        ensures
            r == self.total_nanos() / 1_000_000,
            r <= u64::MAX as int * 1000 + 999,
    {
        proof {
            let s = self.secs;
            let n = self.nanos;
            assert(s * 1000 <= u64::MAX * 1000) by (nonlinear_arith)
                requires s <= u64::MAX;
            assert((s * 1_000_000_000 + n) / 1_000_000 == s * 1000 + n / 1_000_000) by (nonlinear_arith)
                requires n < 1_000_000_000, s >= 0;
        }
        (self.secs as u128) * 1000 + (self.nanos as u128) / 1_000_000
    }
}

/// A measurement of the system clock, in nanoseconds since the UNIX epoch. No guarantee is made
/// that this is monotonically increasing, since the system time can be set.
#[derive(Debug, Clone, Copy, PartialEq, Eq, Structural, PartialOrd, Ord)]
pub struct SystemTime(pub Nanosecs);

/// An error returned by certain `SystemTime` methods. Indicates how far in the opposite direction
/// a system time lies.
#[derive(Debug, Clone, Copy, PartialEq, Eq, Structural)]
pub struct SystemTimeError(pub Nanosecs);

/// A unit in which a span of time is shown.
#[derive(Debug, Clone, Copy, PartialEq, Eq, Structural)]
pub enum TimeUnit {
    Years,
    Days,
    Hours,
    Minutes,
    Seconds,
    Nanoseconds,
}

/// One part of a shown span of time: a count of some unit.
#[derive(Debug, Clone, Copy, PartialEq, Eq, Structural)]
pub struct TimePart {
    pub value: u64,
    pub unit: TimeUnit,
}

/// The average number of nanoseconds in a year, taking leap years into account.
pub const NANOS_PER_YEAR: u64 = 31_556_952_000_000_000;
/// The number of nanoseconds in a day.
pub const NANOS_PER_DAY: u64 = 86_400_000_000_000;
/// The number of nanoseconds in an hour.
pub const NANOS_PER_HOUR: u64 = 3_600_000_000_000;
/// The number of nanoseconds in a minute.
pub const NANOS_PER_MINUTE: u64 = 60_000_000_000;

/// Appends the count of `per`-nanosecond units in `nanos` to `parts` if there is at least one;
/// returns the rest.
pub open spec fn take_unit(parts: Seq<TimePart>, nanos: u64, per: u64, unit: TimeUnit) -> (Seq<TimePart>, u64) {
    if nanos >= per {
        (parts.push(TimePart { value: (nanos / per) as u64, unit }), (nanos % per) as u64)
    } else {
        (parts, nanos)
    }
}

/// The parts in which a span of `nanos` nanoseconds is shown: the years, days, hours, minutes,
/// seconds and nanoseconds of which it has at least one, largest unit first; at least the
/// nanoseconds if no other unit applies.
pub open spec fn time_parts_spec(nanos: u64) -> Seq<TimePart> {
    let y = take_unit(Seq::empty(), nanos, NANOS_PER_YEAR, TimeUnit::Years);
    let d = take_unit(y.0, y.1, NANOS_PER_DAY, TimeUnit::Days);
    let h = take_unit(d.0, d.1, NANOS_PER_HOUR, TimeUnit::Hours);
    let m = take_unit(h.0, h.1, NANOS_PER_MINUTE, TimeUnit::Minutes);
    let s = take_unit(m.0, m.1, NANOS_PER_SEC, TimeUnit::Seconds);
    if s.1 > 0 || s.0.len() == 0 {
        s.0.push(TimePart { value: s.1, unit: TimeUnit::Nanoseconds })
    } else {
        s.0
    }
}

impl SystemTime {
    /// Registers the clock that gives the raw current time, identified by `source`, in the slot
    /// `registered`. The slot may be set only once: registering a different clock after one has
    /// been registered is a programming error.
    pub fn set_now_raw(registered: &mut Option<usize>, source: usize)
        requires
            *old(registered) is None || *old(registered) == Some(source),
        ensures
            *final(registered) == Some(source),
    {
        if registered.is_none() {
            *registered = Some(source);
        }
    }

    /// The UNIX epoch.
    pub fn unix_epoch() -> (t: SystemTime)
        ensures
            t.0.0 == 0,
    {
        SystemTime(Nanosecs(0))
    }

    /// Returns the system time `nanosecs` nanoseconds after the epoch of the hardware clock, given
    /// the offset between that epoch and the UNIX epoch (the offset wraps around).
    pub fn from_raw_nanosecs(nanosecs: u64, time_offset: u64) -> (t: SystemTime)
        ensures
            t.0.0 == vstd::wrapping::u64_specs::wrapping_add(nanosecs, time_offset),
    {
        SystemTime::unix_epoch().add_duration(Duration::from_nanos(nanosecs.wrapping_add(time_offset)))
    }

    /// Returns the system time `dur` after this one.
    pub fn add_duration(self, dur: Duration) -> (t: SystemTime)
        requires
            self.0.0 + dur.total_nanos() <= u64::MAX,
        ensures
            t.0.0 == self.0.0 + dur.total_nanos(),
    {
        SystemTime(Nanosecs(self.0.0 + (dur.as_nanos() as u64)))
    }

    /// Returns the system time `dur` before this one.
    pub fn sub_duration(self, dur: Duration) -> (t: SystemTime)
        requires
            self.0.0 - dur.total_nanos() >= 0,
        ensures
            t.0.0 == self.0.0 - dur.total_nanos(),
    {
        SystemTime(Nanosecs(self.0.0 - (dur.as_nanos() as u64)))
    }

    /// Returns the new offset between the hardware clock's epoch and the UNIX epoch that makes the
    /// current time `time`, given that the current time is `now` with offset `time_offset`.
    pub fn set_now(time: SystemTime, now: SystemTime, time_offset: u64) -> (new_offset: u64)
        ensures
            new_offset == if time.0.0 >= now.0.0 {
                vstd::wrapping::u64_specs::wrapping_add(time_offset, (time.0.0 - now.0.0) as u64)
            } else {
                vstd::wrapping::u64_specs::wrapping_sub(time_offset, (now.0.0 - time.0.0) as u64)
            },
    {
        match time.duration_since(now) {
            Ok(duration) => time_offset.wrapping_add(duration.as_nanos() as u64),
            Err(e) => time_offset.wrapping_sub(e.duration().as_nanos() as u64),
        }
    }

    /// Returns the amount of time between this `SystemTime` and an earlier one. If the earlier one
    /// is actually later, returns an error that still gives the duration between the two times.
    pub fn duration_since(&self, earlier: SystemTime) -> (r: Result<Duration, SystemTimeError>)
        ensures
            self.0.0 >= earlier.0.0 ==> r is Ok && r->Ok_0.total_nanos() == self.0.0 - earlier.0.0 && r->Ok_0.wf(),
            self.0.0 < earlier.0.0 ==> r == Err::<Duration, SystemTimeError>(SystemTimeError(Nanosecs((earlier.0.0 - self.0.0) as u64))),
    {
        if self.0.0 >= earlier.0.0 {
            let duration_nanos: u64 = self.0.0 - earlier.0.0;
            Ok(Duration::new(duration_nanos / NANOS_PER_SEC, (duration_nanos % NANOS_PER_SEC) as u32))
        } else {
            Err(SystemTimeError(Nanosecs(earlier.0.0 - self.0.0)))
        }
    }

    /// Returns the amount of time between `now` and this `SystemTime`, or an error giving how far
    /// this time lies in the future.
    pub fn elapsed(&self, now: SystemTime) -> (r: Result<Duration, SystemTimeError>)
        ensures
            now.0.0 >= self.0.0 ==> r is Ok && r->Ok_0.total_nanos() == now.0.0 - self.0.0,
            now.0.0 < self.0.0 ==> r == Err::<Duration, SystemTimeError>(SystemTimeError(Nanosecs((self.0.0 - now.0.0) as u64))),
    {
        now.duration_since(*self)
    }
}

/// After the time is set to `time` (when the hardware clock reads `raw` and the offset is
/// `time_offset`), reading the clock at that same moment gives `time` back.
pub proof fn lemma_set_now_then_now(time: SystemTime, raw: u64, time_offset: u64)
    ensures
        ({
            let now = vstd::wrapping::u64_specs::wrapping_add(raw, time_offset);
            let new_offset = if time.0.0 >= now {
                vstd::wrapping::u64_specs::wrapping_add(time_offset, (time.0.0 - now) as u64)
            } else {
                vstd::wrapping::u64_specs::wrapping_sub(time_offset, (now - time.0.0) as u64)
            };
            vstd::wrapping::u64_specs::wrapping_add(raw, new_offset) == time.0.0
        }),
{
    let t = time.0.0;
    let now = vstd::wrapping::u64_specs::wrapping_add(raw, time_offset);
    assert(now == (raw as int + time_offset as int) % 0x1_0000_0000_0000_0000);
    if t >= now {
        let new_offset = vstd::wrapping::u64_specs::wrapping_add(time_offset, (t - now) as u64);
        assert(new_offset == (time_offset as int + (t - now)) % 0x1_0000_0000_0000_0000);
        assert(vstd::wrapping::u64_specs::wrapping_add(raw, new_offset)
            == (raw as int + new_offset as int) % 0x1_0000_0000_0000_0000);
        lemma_mod_sum_back(raw as int, time_offset as int, t as int, now as int, new_offset as int);
    } else {
        let new_offset = vstd::wrapping::u64_specs::wrapping_sub(time_offset, (now - t) as u64);
        assert(new_offset == (time_offset as int - (now - t)) % 0x1_0000_0000_0000_0000);
        assert(vstd::wrapping::u64_specs::wrapping_add(raw, new_offset)
            == (raw as int + new_offset as int) % 0x1_0000_0000_0000_0000);
        lemma_mod_sum_back(raw as int, time_offset as int, t as int, now as int, new_offset as int);
    }
}

// Adding `raw` to an offset corrected by `t - now`, where `now` is `raw` plus the old offset, gives
// `t`, all modulo 2^64.
proof fn lemma_mod_sum_back(raw: int, off: int, t: int, now: int, new_off: int)
    requires
        0 <= raw < 0x1_0000_0000_0000_0000,
        0 <= off < 0x1_0000_0000_0000_0000,
        0 <= t < 0x1_0000_0000_0000_0000,
        now == (raw + off) % 0x1_0000_0000_0000_0000,
        new_off == (off + (t - now)) % 0x1_0000_0000_0000_0000,
    ensures
        (raw + new_off) % 0x1_0000_0000_0000_0000 == t,
{
    let m: int = 0x1_0000_0000_0000_0000;
    vstd::arithmetic::div_mod::lemma_fundamental_div_mod(raw + off, m);
    vstd::arithmetic::div_mod::lemma_fundamental_div_mod(off + (t - now), m);
    let q1 = (raw + off) / m;
    let q2 = (off + (t - now)) / m;
    assert(raw + new_off == t + m * (q1 - q2)) by (nonlinear_arith)
        requires raw + off == m * q1 + now, off + (t - now) == m * q2 + new_off;
    vstd::arithmetic::div_mod::lemma_mod_multiples_vanish(q1 - q2, t, m);
    vstd::arithmetic::div_mod::lemma_small_mod(t as nat, m as nat);
}

/// The number of nanoseconds in one of `unit`.
pub open spec fn unit_nanos(unit: TimeUnit) -> nat {
    match unit {
        TimeUnit::Years => 31_556_952_000_000_000,
        TimeUnit::Days => 86_400_000_000_000,
        TimeUnit::Hours => 3_600_000_000_000,
        TimeUnit::Minutes => 60_000_000_000,
        TimeUnit::Seconds => 1_000_000_000,
        TimeUnit::Nanoseconds => 1,
    }
}

/// The place of `unit` from the largest (years, 0) to the smallest (nanoseconds, 5).
pub open spec fn unit_rank(unit: TimeUnit) -> int {
    match unit {
        TimeUnit::Years => 0,
        TimeUnit::Days => 1,
        TimeUnit::Hours => 2,
        TimeUnit::Minutes => 3,
        TimeUnit::Seconds => 4,
        TimeUnit::Nanoseconds => 5,
    }
}

/// The number of nanoseconds in one of the unit next larger than `unit` (for years, more than any
/// span can hold).
pub open spec fn larger_unit_nanos(unit: TimeUnit) -> nat {
    match unit {
        TimeUnit::Years => 0x1_0000_0000_0000_0000,
        TimeUnit::Days => 31_556_952_000_000_000,
        TimeUnit::Hours => 86_400_000_000_000,
        TimeUnit::Minutes => 3_600_000_000_000,
        TimeUnit::Seconds => 60_000_000_000,
        TimeUnit::Nanoseconds => 1_000_000_000,
    }
}

/// The span of time that the parts `s` add up to, in nanoseconds.
pub open spec fn parts_total(s: Seq<TimePart>) -> int
    decreases s.len(),
{
    if s.len() == 0 {
        0
    } else {
        parts_total(s.drop_last()) + s.last().value * unit_nanos(s.last().unit)
    }
}

// The parts so far of showing a span of `n` nanoseconds, with `rest` nanoseconds left to show,
// all in units larger than those of rank `next` and below: they are in order of unit, each at
// least one and less than one of the next larger unit, and they add up to what was taken off.
spec fn parts_so_far(parts: Seq<TimePart>, rest: u64, n: u64, next: int) -> bool {
    &&& parts_total(parts) + rest == n
    &&& forall|k: int| 0 <= k < parts.len() ==> unit_rank(#[trigger] parts[k].unit) < next
    &&& forall|i: int, j: int| 0 <= i < j < parts.len() ==> unit_rank(#[trigger] parts[i].unit) < unit_rank(#[trigger] parts[j].unit)
    &&& forall|k: int| 0 <= k < parts.len() ==> (#[trigger] parts[k]).value > 0
        && parts[k].value * unit_nanos(parts[k].unit) < larger_unit_nanos(parts[k].unit)
}

// Taking the units of `per` nanoseconds off the rest keeps the parts in shape, leaves less than
// one such unit, and keeps the earlier parts.
proof fn lemma_take_unit(parts: Seq<TimePart>, rest: u64, n: u64, per: u64, unit: TimeUnit)
    requires
        parts_so_far(parts, rest, n, unit_rank(unit)),
        per == unit_nanos(unit),
        rest < larger_unit_nanos(unit),
    ensures
        ({
            let r = take_unit(parts, rest, per, unit);
            &&& parts_so_far(r.0, r.1, n, unit_rank(unit) + 1)
            &&& r.1 < per
            &&& r.0.len() >= parts.len()
            &&& forall|k: int| 0 <= k < parts.len() ==> r.0[k] == parts[k]
            &&& rest >= per ==> r.0[parts.len() as int] == TimePart { value: (rest / per) as u64, unit }
        }),
{
    let r = take_unit(parts, rest, per, unit);
    if rest >= per {
        let p = TimePart { value: (rest / per) as u64, unit };
        assert(r.0 == parts.push(p));
        assert(r.0.drop_last() =~= parts);
        assert(p.value * per + rest % per == rest) by (nonlinear_arith) requires per > 0, p.value == rest / per;
        assert(p.value * per <= rest) by (nonlinear_arith) requires per > 0, p.value == rest / per;
        assert forall|i: int, j: int| 0 <= i < j < r.0.len() implies unit_rank(#[trigger] r.0[i].unit) < unit_rank(#[trigger] r.0[j].unit) by {
            if j < parts.len() {
                assert(r.0[i] == parts[i] && r.0[j] == parts[j]);
            } else {
                assert(r.0[i] == parts[i]);
            }
        }
        assert forall|k: int| 0 <= k < r.0.len() implies (#[trigger] r.0[k]).value > 0
            && r.0[k].value * unit_nanos(r.0[k].unit) < larger_unit_nanos(r.0[k].unit) by {
            if k < parts.len() {
                assert(r.0[k] == parts[k]);
            }
        }
    }
}

// Ending the parts with the nanoseconds left (if any are, or if there is no other part) gives
// parts that add up to the span and are in shape.
proof fn lemma_finish_parts(parts: Seq<TimePart>, rest: u64, n: u64)
    requires
        parts_so_far(parts, rest, n, 5),
        rest < 1_000_000_000,
    ensures
        ({
            let p = if rest > 0 || parts.len() == 0 {
                parts.push(TimePart { value: rest, unit: TimeUnit::Nanoseconds })
            } else {
                parts
            };
            &&& parts_total(p) == n
            &&& p.len() > 0
            &&& forall|k: int| 0 <= k < parts.len() ==> p[k] == parts[k]
            &&& forall|i: int, j: int| 0 <= i < j < p.len() ==> unit_rank(#[trigger] p[i].unit) < unit_rank(#[trigger] p[j].unit)
            &&& forall|k: int| 0 <= k < p.len() ==> #[trigger] p[k].value * unit_nanos(p[k].unit) < larger_unit_nanos(p[k].unit)
            &&& forall|k: int| 0 <= k < p.len() ==> (#[trigger] p[k]).value > 0 || (n == 0 && p.len() == 1)
        }),
{
    if rest > 0 || parts.len() == 0 {
        let p = parts.push(TimePart { value: rest, unit: TimeUnit::Nanoseconds });
        assert(p.drop_last() =~= parts);
        assert(parts_total(p) == parts_total(parts) + rest * 1);
        assert forall|k: int| 0 <= k < parts.len() implies p[k] == parts[k] by {}
        assert forall|i: int, j: int| 0 <= i < j < p.len() implies unit_rank(#[trigger] p[i].unit) < unit_rank(#[trigger] p[j].unit) by {
            assert(p[i] == parts[i]);
            if j < parts.len() {
                assert(p[j] == parts[j]);
            }
        }
        assert forall|k: int| 0 <= k < p.len() implies #[trigger] p[k].value * unit_nanos(p[k].unit) < larger_unit_nanos(p[k].unit)
            && (p[k].value > 0 || (n == 0 && p.len() == 1)) by {
            if k < parts.len() {
                assert(p[k] == parts[k]);
            }
        }
    } else {
        assert forall|k: int| 0 <= k < parts.len() implies (#[trigger] parts[k]).value > 0
            && parts[k].value * unit_nanos(parts[k].unit) < larger_unit_nanos(parts[k].unit) by {
        }
    }
}

/// A span of `n` nanoseconds is shown as parts that add up to it, in units from the largest to the
/// smallest, each used at most once, each part at least one and less than one of the next larger
/// unit (so at most 365 days, 23 hours, 59 minutes and 59 seconds), with nothing but "0
/// nanoseconds" shown for an empty span. In particular a span of at least a year starts with its
/// whole number of years.
#[verifier::spinoff_prover]
#[verifier::rlimit(40)]
pub proof fn lemma_time_parts_add_up(n: u64)
    ensures
        ({
            let p = time_parts_spec(n);
            &&& parts_total(p) == n
            &&& p.len() > 0
            &&& forall|i: int, j: int| 0 <= i < j < p.len() ==> unit_rank(#[trigger] p[i].unit) < unit_rank(#[trigger] p[j].unit)
            &&& forall|k: int| 0 <= k < p.len() ==> #[trigger] p[k].value * unit_nanos(p[k].unit) < larger_unit_nanos(p[k].unit)
            &&& forall|k: int| 0 <= k < p.len() ==> (#[trigger] p[k]).value > 0 || (n == 0 && p.len() == 1)
            &&& n >= 31_556_952_000_000_000 ==> p[0] == TimePart { value: n / 31_556_952_000_000_000, unit: TimeUnit::Years }
        }),
{
    let e = Seq::<TimePart>::empty();
    assert(parts_so_far(e, n, n, 0));
    lemma_take_unit(e, n, n, NANOS_PER_YEAR, TimeUnit::Years);
    let y = take_unit(e, n, NANOS_PER_YEAR, TimeUnit::Years);
    lemma_take_unit(y.0, y.1, n, NANOS_PER_DAY, TimeUnit::Days);
    let d = take_unit(y.0, y.1, NANOS_PER_DAY, TimeUnit::Days);
    lemma_take_unit(d.0, d.1, n, NANOS_PER_HOUR, TimeUnit::Hours);
    let h = take_unit(d.0, d.1, NANOS_PER_HOUR, TimeUnit::Hours);
    lemma_take_unit(h.0, h.1, n, NANOS_PER_MINUTE, TimeUnit::Minutes);
    let m = take_unit(h.0, h.1, NANOS_PER_MINUTE, TimeUnit::Minutes);
    lemma_take_unit(m.0, m.1, n, NANOS_PER_SEC, TimeUnit::Seconds);
    let s = take_unit(m.0, m.1, NANOS_PER_SEC, TimeUnit::Seconds);
    lemma_finish_parts(s.0, s.1, n);
    let p = time_parts_spec(n);
    assert(p == (if s.1 > 0 || s.0.len() == 0 {
        s.0.push(TimePart { value: s.1, unit: TimeUnit::Nanoseconds })
    } else {
        s.0
    }));
    if n >= NANOS_PER_YEAR {
        assert(y.0[0] == TimePart { value: n / NANOS_PER_YEAR, unit: TimeUnit::Years });
        assert(p[0] == s.0[0]);
    }
}

impl SystemTimeError {
    /// Returns the positive duration which represents how far forward the second system time was
    /// from the first.
    pub fn duration(&self) -> (d: Duration)
        ensures
            d.total_nanos() == self.0.0,
            d.wf(),
    {
        Duration::new(self.0.0 / NANOS_PER_SEC, (self.0.0 % NANOS_PER_SEC) as u32)
    }

    /// Returns the parts in which this error's span of time is shown (e.g. "1d2h3ns").
    pub fn parts(&self) -> (r: Vec<TimePart>)
        ensures
            r@ == time_parts_spec(self.0.0),
    {
        let mut parts: Vec<TimePart> = Vec::new();
        let mut nanos = self.0.0;
        let ghost y = take_unit(Seq::empty(), self.0.0, NANOS_PER_YEAR, TimeUnit::Years);
        if nanos >= NANOS_PER_YEAR {
            parts.push(TimePart { value: nanos / NANOS_PER_YEAR, unit: TimeUnit::Years });
            nanos = nanos % NANOS_PER_YEAR;
        }
        proof { assert(parts@ == y.0 && nanos == y.1); }
        let ghost d = take_unit(y.0, y.1, NANOS_PER_DAY, TimeUnit::Days);
        if nanos >= NANOS_PER_DAY {
            parts.push(TimePart { value: nanos / NANOS_PER_DAY, unit: TimeUnit::Days });
            nanos = nanos % NANOS_PER_DAY;
        }
        proof { assert(parts@ == d.0 && nanos == d.1); }
        let ghost h = take_unit(d.0, d.1, NANOS_PER_HOUR, TimeUnit::Hours);
        if nanos >= NANOS_PER_HOUR {
            parts.push(TimePart { value: nanos / NANOS_PER_HOUR, unit: TimeUnit::Hours });
            nanos = nanos % NANOS_PER_HOUR;
        }
        proof { assert(parts@ == h.0 && nanos == h.1); }
        let ghost m = take_unit(h.0, h.1, NANOS_PER_MINUTE, TimeUnit::Minutes);
        if nanos >= NANOS_PER_MINUTE {
            parts.push(TimePart { value: nanos / NANOS_PER_MINUTE, unit: TimeUnit::Minutes });
            nanos = nanos % NANOS_PER_MINUTE;
        }
        proof { assert(parts@ == m.0 && nanos == m.1); }
        let ghost s = take_unit(m.0, m.1, NANOS_PER_SEC, TimeUnit::Seconds);
        if nanos >= NANOS_PER_SEC {
            parts.push(TimePart { value: nanos / NANOS_PER_SEC, unit: TimeUnit::Seconds });
            nanos = nanos % NANOS_PER_SEC;
        }
        proof { assert(parts@ == s.0 && nanos == s.1); }
        if nanos > 0 || parts.len() == 0 {
            parts.push(TimePart { value: nanos, unit: TimeUnit::Nanoseconds });
        }
        parts
    }
}

} // verus!
