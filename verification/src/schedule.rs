//! The streaming schedule held in the persisted bot state: times of day,
//! off days, and their user-facing formatting.

use vstd::prelude::*;

use crate::cooldown::CooldownState;
use crate::Source;

verus! {

/// A day of the week.
#[derive(Clone, Copy, Debug, PartialEq, Eq, Structural)]
pub enum Weekday {
    Mon,
    Tue,
    Wed,
    Thu,
    Fri,
    Sat,
    Sun,
}

/// The full English name of a weekday.
pub open spec fn spec_weekday_name(w: Weekday) -> Seq<char> {
    match w {
        Weekday::Mon => "Monday"@,
        Weekday::Tue => "Tuesday"@,
        Weekday::Wed => "Wednesday"@,
        Weekday::Thu => "Thursday"@,
        Weekday::Fri => "Friday"@,
        Weekday::Sat => "Saturday"@,
        Weekday::Sun => "Sunday"@,
    }
}

/// The full English name of a weekday.
pub fn weekday_name(w: Weekday) -> (r: String)
    ensures
        r@ == spec_weekday_name(w),
{
    let s: &str = match w {
        Weekday::Mon => "Monday",
        Weekday::Tue => "Tuesday",
        Weekday::Wed => "Wednesday",
        Weekday::Thu => "Thursday",
        Weekday::Fri => "Friday",
        Weekday::Sat => "Saturday",
        Weekday::Sun => "Sunday",
    };
    s.to_owned()
}

/// A wall-clock time of day.
#[derive(Clone, Copy, Debug, PartialEq, Eq, Structural)]
pub struct TimeOfDay {
    pub hour: u32,
    pub min: u32,
    pub sec: u32,
}

impl TimeOfDay {
    pub open spec fn wf(self) -> bool {
        self.hour < 24 && self.min < 60 && self.sec < 60
    }

    /// A valid time of day, or none for out-of-range components.
    pub fn new(hour: u32, min: u32, sec: u32) -> (r: Option<TimeOfDay>)
        ensures
            match r {
                Some(t) => hour < 24 && min < 60 && sec < 60 && t == (TimeOfDay { hour, min, sec }),
                None => !(hour < 24 && min < 60 && sec < 60),
            },
    {
        if hour < 24 && min < 60 && sec < 60 {
            Some(TimeOfDay { hour, min, sec })
        } else {
            None
        }
    }
}

pub open spec fn digit_char(d: int) -> char {
    if d == 0 { '0' } else if d == 1 { '1' } else if d == 2 { '2' } else if d == 3 { '3' }
    else if d == 4 { '4' } else if d == 5 { '5' } else if d == 6 { '6' } else if d == 7 { '7' }
    else if d == 8 { '8' } else { '9' }
}

/// A number below 100 as two digits, zero-padded.
pub open spec fn two_digits(n: int) -> Seq<char> {
    seq![digit_char(n / 10), digit_char(n % 10)]
}

/// The hour on the 12-hour clock: 12 for 0 and 12, else the hour mod 12.
pub open spec fn hour12(h: int) -> int {
    if h % 12 == 0 {
        12
    } else {
        h % 12
    }
}

/// The lowercase meridiem marker.
pub open spec fn meridiem(h: int) -> Seq<char> {
    if h < 12 {
        "am"@
    } else {
        "pm"@
    }
}

/// A time as zero-padded 12-hour clock and minutes, `hh:mm`.
pub open spec fn spec_hm(t: TimeOfDay) -> Seq<char> {
    two_digits(hour12(t.hour as int)) + ":"@ + two_digits(t.min as int)
}

/// A schedule boundary: the identical times as one `hh:mm` with meridiem,
/// else both times separated by `~`, the meridiem on the second.
pub open spec fn spec_format_range(a: TimeOfDay, b: TimeOfDay) -> Seq<char> {
    if a == b {
        spec_hm(a) + meridiem(a.hour as int)
    } else {
        spec_hm(a) + "~"@ + spec_hm(b) + meridiem(b.hour as int)
    }
}

fn digit_str(d: u32) -> (r: &'static str)
    requires
        d < 10,
    ensures
        r@ == seq![digit_char(d as int)],
{
    proof {
        reveal_strlit("0");
        reveal_strlit("1");
        reveal_strlit("2");
        reveal_strlit("3");
        reveal_strlit("4");
        reveal_strlit("5");
        reveal_strlit("6");
        reveal_strlit("7");
        reveal_strlit("8");
        reveal_strlit("9");
        assert("0"@ =~= seq!['0']);
        assert("1"@ =~= seq!['1']);
        assert("2"@ =~= seq!['2']);
        assert("3"@ =~= seq!['3']);
        assert("4"@ =~= seq!['4']);
        assert("5"@ =~= seq!['5']);
        assert("6"@ =~= seq!['6']);
        assert("7"@ =~= seq!['7']);
        assert("8"@ =~= seq!['8']);
        assert("9"@ =~= seq!['9']);
    }
    if d == 0 { "0" } else if d == 1 { "1" } else if d == 2 { "2" } else if d == 3 { "3" }
    else if d == 4 { "4" } else if d == 5 { "5" } else if d == 6 { "6" } else if d == 7 { "7" }
    else if d == 8 { "8" } else { "9" }
}

fn push_two_digits(out: &mut String, n: u32)
    requires
        n < 100,
    ensures
        final(out)@ == old(out)@ + two_digits(n as int),
{
    out.append(digit_str(n / 10));
    out.append(digit_str(n % 10));
    proof {
        assert(final(out)@ =~= old(out)@ + two_digits(n as int));
    }
}

fn push_hm(out: &mut String, t: TimeOfDay)
    requires
        t.wf(),
    ensures
        final(out)@ == old(out)@ + spec_hm(t),
{
    let h12: u32 = if t.hour % 12 == 0 {
        12
    } else {
        t.hour % 12
    };
    push_two_digits(out, h12);
    out.append(":");
    push_two_digits(out, t.min);
    proof {
        assert(old(out)@ + two_digits(hour12(t.hour as int)) + ":"@ + two_digits(t.min as int)
            =~= old(out)@ + spec_hm(t));
    }
}

/// The streaming schedule: a start and a finish range.
#[derive(Clone, Copy, Debug)]
pub struct BaseSchedule {
    pub start: (TimeOfDay, TimeOfDay),
    pub finish: (TimeOfDay, TimeOfDay),
}

impl BaseSchedule {
    pub open spec fn wf(self) -> bool {
        self.start.0.wf() && self.start.1.wf() && self.finish.0.wf() && self.finish.1.wf()
    }

    fn format_range(range: (TimeOfDay, TimeOfDay)) -> (r: String)
        requires
            range.0.wf(),
            range.1.wf(),
        ensures
            r@ == spec_format_range(range.0, range.1),
    {
        let mut out = String::new();
        if range.0 == range.1 {
            push_hm(&mut out, range.0);
            if range.0.hour < 12 {
                out.append("am");
            } else {
                out.append("pm");
            }
            proof {
                assert(out@ =~= spec_format_range(range.0, range.1));
            }
        } else {
            push_hm(&mut out, range.0);
            out.append("~");
            push_hm(&mut out, range.1);
            if range.1.hour < 12 {
                out.append("am");
            } else {
                out.append("pm");
            }
            proof {
                assert(out@ =~= spec_format_range(range.0, range.1));
            }
        }
        out
    }

    /// The formatted start range.
    #[must_use]
    pub fn format_start(&self) -> (r: String)
        requires
            self.wf(),
        ensures
            r@ == spec_format_range(self.start.0, self.start.1),
    {
        Self::format_range(self.start)
    }

    /// The formatted finish range.
    #[must_use]
    pub fn format_finish(&self) -> (r: String)
        requires
            self.wf(),
        ensures
            r@ == spec_format_range(self.finish.0, self.finish.1),
    {
        Self::format_range(self.finish)
    }
}

impl Default for BaseSchedule {
    /// The stock schedule: starting between 7 and 8, finishing at 16.
    fn default() -> (r: BaseSchedule)
        ensures
            r == (BaseSchedule {
                start: (
                    TimeOfDay { hour: 7, min: 0, sec: 0 },
                    TimeOfDay { hour: 8, min: 0, sec: 0 },
                ),
                finish: (
                    TimeOfDay { hour: 16, min: 0, sec: 0 },
                    TimeOfDay { hour: 16, min: 0, sec: 0 },
                ),
            }),
            r.wf(),
    {
        BaseSchedule {
            start: (TimeOfDay { hour: 7, min: 0, sec: 0 }, TimeOfDay { hour: 8, min: 0, sec: 0 }),
            finish: (
                TimeOfDay { hour: 16, min: 0, sec: 0 },
                TimeOfDay { hour: 16, min: 0, sec: 0 },
            ),
        }
    }
}

/// The persisted bot state: the schedule, the off days, the custom
/// commands added at runtime, and the per-command last execution times.
pub struct State {
    pub schedule: BaseSchedule,
    pub off_days: Vec<Weekday>,
    pub custom_commands: Vec<(String, Vec<(Source, String)>)>,
    pub last_executed: CooldownState,
}

impl Default for State {
    /// The stock state: the default schedule, weekends off, nothing else.
    fn default() -> (r: State)
        ensures
            r.schedule == (BaseSchedule {
                start: (
                    TimeOfDay { hour: 7, min: 0, sec: 0 },
                    TimeOfDay { hour: 8, min: 0, sec: 0 },
                ),
                finish: (
                    TimeOfDay { hour: 16, min: 0, sec: 0 },
                    TimeOfDay { hour: 16, min: 0, sec: 0 },
                ),
            }),
            r.off_days@ =~= seq![Weekday::Sat, Weekday::Sun],
            r.custom_commands@.len() == 0,
            r.last_executed.wf(),
            r.last_executed@ == Map::<Seq<char>, int>::empty(),
    {
        let mut off_days: Vec<Weekday> = Vec::new();
        off_days.push(Weekday::Sat);
        off_days.push(Weekday::Sun);
        State {
            schedule: BaseSchedule::default(),
            off_days,
            custom_commands: Vec::new(),
            last_executed: CooldownState::new(),
        }
    }
}

/// The names of the off days, in order.
pub open spec fn spec_off_day_names(ds: Seq<Weekday>) -> Seq<Seq<char>> {
    ds.map_values(|w: Weekday| spec_weekday_name(w))
}

/// The `!schedule` response: formatted start and finish, and the off-day
/// names.
pub fn schedule(state: &State) -> (r: crate::respond::UserResponse)
    requires
        state.schedule.wf(),
    ensures
        (r matches crate::respond::UserResponse::Schedule { start, finish, off_days }
            && start@ == spec_format_range(state.schedule.start.0, state.schedule.start.1)
            && finish@ == spec_format_range(state.schedule.finish.0, state.schedule.finish.1)
            && off_days.deep_view() == spec_off_day_names(state.off_days@)),
{
    let n = state.off_days.len();
    let mut names: Vec<String> = Vec::new();
    let mut i: usize = 0;
    while i < n
        invariant
            n == state.off_days.len(),
            i <= n,
            names.deep_view() =~= spec_off_day_names(state.off_days@.take(i as int)),
        decreases n - i,
    {
        proof {
            assert(names.deep_view().len() == names@.len());
        }
        names.push(weekday_name(state.off_days[i]));
        proof {
            let exp = spec_off_day_names(state.off_days@.take(i + 1));
            assert forall|k: int| 0 <= k < i + 1 implies names.deep_view()[k] == exp[k] by {
                assert(names.deep_view()[k] == names@[k]@);
                assert(exp[k] == spec_weekday_name(state.off_days@.take(i + 1)[k]));
                if k < i {
                    assert(names.deep_view()[k] == spec_off_day_names(
                        state.off_days@.take(i as int),
                    )[k]);
                    assert(spec_off_day_names(state.off_days@.take(i as int))[k]
                        == spec_weekday_name(state.off_days@.take(i as int)[k]));
                }
            }
            assert(names.deep_view() =~= exp);
        }
        i = i + 1;
    }
    proof {
        assert(state.off_days@.take(n as int) =~= state.off_days@);
        assert(names.deep_view() =~= spec_off_day_names(state.off_days@));
    }
    crate::respond::UserResponse::Schedule {
        start: state.schedule.format_start(),
        finish: state.schedule.format_finish(),
        off_days: names,
    }
}

} // verus!
