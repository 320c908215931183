//! A small wall-clock display helper: holds hours, minutes and seconds
//! derived from a millisecond count, and renders them as `hh:mm:ss`.

use vstd::prelude::*;

verus! {

/// The hour count a millisecond count names on a 24-hour clock.
pub open spec fn hours_part(ms: int) -> int {
    (ms / 3600000int) % 24
}

/// The minute count a millisecond count names.
pub open spec fn mins_part(ms: int) -> int {
    (ms / 60000int) % 60
}

/// The second count a millisecond count names.
pub open spec fn secs_part(ms: int) -> int {
    (ms / 1000int) % 60
}

/// The decimal digit character for a value below ten.
pub open spec fn digit_char(v: int) -> char {
    ((48 + v) as u8) as char
}

/// A value below one hundred, written with exactly two digits.
pub open spec fn two_digits(v: int) -> Seq<char> {
    seq![digit_char(v / 10), digit_char(v % 10)]
}

/// A clock time in `hh:mm:ss` notation.
pub open spec fn clock_text(hours: int, minutes: int, seconds: int) -> Seq<char> {
    two_digits(hours) + seq![':'] + two_digits(minutes) + seq![':'] + two_digits(seconds)
}

/// Mathematical model of a clock.
pub struct ClockModel {
    pub hours: int,
    pub minutes: int,
    pub seconds: int,
}

/// A clock display value.
#[derive(Clone, Copy, Debug)]
pub struct Clock {
    hours: i64,
    minutes: i64,
    seconds: i64,
}

impl View for Clock {
    type V = ClockModel;

    closed spec fn view(&self) -> ClockModel {
        ClockModel {
            hours: self.hours as int,
            minutes: self.minutes as int,
            seconds: self.seconds as int,
        }
    }
}

impl Clock {
    /// The fields stay in their clock ranges; every constructor and setter
    /// keeps this, so `get_time` always has two digits per field.
    pub open spec fn wf(&self) -> bool {
        &&& 0 <= self@.hours < 24
        &&& 0 <= self@.minutes < 60
        &&& 0 <= self@.seconds < 60
    }

    /// A clock reading midnight.
    pub fn new() -> (r: Clock)
        ensures
            r@.hours == 0 && r@.minutes == 0 && r@.seconds == 0,
            r.wf(),
    {
        Clock { hours: 0, minutes: 0, seconds: 0 }
    }

    /// Set the clock from a millisecond count.
    pub fn set_time_ms(&mut self, ms: i64)
        requires
            0 <= ms,
        ensures
            final(self)@.hours == hours_part(ms as int),
            final(self)@.minutes == mins_part(ms as int),
            final(self)@.seconds == secs_part(ms as int),
            final(self).wf(),
    {
        let t = ms as u64;
        self.seconds = ((t / 1000) % 60) as i64;
        self.minutes = ((t / (1000 * 60)) % 60) as i64;
        self.hours = ((t / (1000 * 60 * 60)) % 24) as i64;
    }

    /// Set the clock from a second count.
    pub fn set_time_secs(&mut self, seconds: i64)
        requires
            0 <= seconds,
            seconds <= 9223372036854775,
        ensures
            final(self)@.hours == hours_part(seconds * 1000),
            final(self)@.minutes == mins_part(seconds * 1000),
            final(self)@.seconds == secs_part(seconds * 1000),
            final(self).wf(),
    {
        self.set_time_ms(seconds * 1000);
    }

    /// The clock time in `hh:mm:ss` notation.
    pub fn get_time(&self) -> (r: String)
        requires
            self.wf(),
        ensures
            r@ == clock_text(self@.hours, self@.minutes, self@.seconds),
    {
        let mut out = String::new();
        push_two_digits(&mut out, self.hours);
        out.push(':');
        push_two_digits(&mut out, self.minutes);
        out.push(':');
        push_two_digits(&mut out, self.seconds);
        proof {
            assert(out@ =~= clock_text(self@.hours, self@.minutes, self@.seconds));
        }
        out
    }
}

/// Append a value below one hundred as exactly two decimal digits.
fn push_two_digits(out: &mut String, v: i64)
    requires
        0 <= v < 100,
    ensures
        final(out)@ == old(out)@ + two_digits(v as int),
{
    let t = v as u64;
    let hi = t / 10;
    let lo = t % 10;
    out.push(((48 + hi) as u8) as char);
    out.push(((48 + lo) as u8) as char);
    proof {
        assert(final(out)@ =~= old(out)@ + two_digits(v as int));
    }
}

} // verus!
