//! Tasks of the scheduler: when a task fires first, how often it repeats,
//! and which task lists are fit to be scheduled.
use crate::storage::{hex_char, hex_digit};
use crate::text::{all_digits, decimal_value, parse_decimal, split_spaces, split_spaces_bounds};
use vstd::prelude::*;
use vstd::string::*;

verus! {

/// Longest a `time` may lie ahead of now: 90 days, in seconds.
pub const MAX_LEAD_SECONDS: i64 = 7776000;

/// Errors of the scheduler.
#[derive(Clone, Debug, PartialEq, Eq)]
pub enum SchedulerError {
    /// A task is malformed; `description` names it.
    TaskParseError { err: String, description: String },
    /// A task's `time` is in the past or too far ahead.
    TaskTimeError { err: String, description: String },
    /// A duration field is not of the form `Xh Ym Zs`.
    HmsParseError { err: String, field: String },
    /// A task list could not be read.
    TaskListParseError { err: String, name: String },
}

/// The program a task launches.
#[derive(Clone, Debug)]
pub struct App {
    pub name: String,
    pub args: Option<Vec<String>>,
    pub config: Option<String>,
}

/// A scheduled launch of an app.
#[derive(Clone, Debug)]
pub struct Task {
    pub id: Option<i32>,
    /// Start delay, `Xh Ym Zs`.
    pub delay: Option<String>,
    /// Start time, `YYYY-MM-DD HH:MM:SS` in UTC.
    pub time: Option<String>,
    /// Period of recurrence, `Xh Ym Zs`.
    pub period: Option<String>,
    pub app: App,
}

/// What a task list file holds.
#[derive(Clone, Debug)]
pub struct ListContents {
    pub tasks: Vec<Task>,
}

/// A task list and where it came from.
#[derive(Clone, Debug)]
pub struct TaskList {
    pub tasks: Vec<Task>,
    pub path: String,
    pub filename: String,
    pub time_imported: String,
}

pub open spec fn unit_seconds(c: char) -> nat {
    if c == 's' {
        1
    } else if c == 'm' {
        60
    } else if c == 'h' {
        3600
    } else {
        0
    }
}

/// Seconds of one piece such as `10m`: digits, then one unit letter.
pub open spec fn part_seconds(p: Seq<char>) -> Option<nat> {
    if p.len() >= 2 && unit_seconds(p.last()) > 0 && all_digits(p.drop_last()) {
        Some(decimal_value(p.drop_last()) * unit_seconds(p.last()))
    } else {
        None
    }
}

pub open spec fn parts_seconds(ps: Seq<Seq<char>>) -> Option<nat>
    decreases ps.len(),
{
    if ps.len() == 0 {
        Some(0)
    } else {
        match (parts_seconds(ps.drop_last()), part_seconds(ps.last())) {
            (Some(a), Some(b)) => Some(a + b),
            _ => None,
        }
    }
}

/// Seconds that an `Xh Ym Zs` field stands for.
pub open spec fn hms_seconds(s: Seq<char>) -> Option<nat> {
    parts_seconds(split_spaces(s))
}

/// The field is well formed and its total fits in `u64`.
pub open spec fn hms_ok(s: Seq<char>) -> bool {
    hms_seconds(s) is Some && hms_seconds(s)->0 <= u64::MAX
}

proof fn lemma_parts_seconds_grow(ps: Seq<Seq<char>>, i: int, j: int)
    requires
        0 <= i <= j <= ps.len(),
    ensures
        parts_seconds(ps.subrange(0, i)) is None ==> parts_seconds(ps.subrange(0, j)) is None,
        parts_seconds(ps.subrange(0, j)) is Some ==> parts_seconds(ps.subrange(0, i)) is Some
            && parts_seconds(ps.subrange(0, i))->0 <= parts_seconds(ps.subrange(0, j))->0,
    decreases j - i,
{
    if i < j {
        lemma_parts_seconds_grow(ps, i, j - 1);
        assert(ps.subrange(0, j).drop_last() =~= ps.subrange(0, j - 1));
    }
}

/// Seconds of the piece `field[lo..hi]`, where they fit in `u64`.
fn part_value(field: &str, lo: usize, hi: usize) -> (r: Option<u64>)
    requires
        lo <= hi <= field@.len(),
    ensures
        match part_seconds(field@.subrange(lo as int, hi as int)) {
            Some(v) => if v <= u64::MAX {
                r == Some(v as u64)
            } else {
                r is None
            },
            None => r is None,
        },
{
    let ghost p = field@.subrange(lo as int, hi as int);
    if hi - lo < 2 {
        return None;
    }
    let unit = field.get_char(hi - 1);
    assert(unit == p.last());
    let mult: u64 = if unit == 's' {
        1
    } else if unit == 'm' {
        60
    } else if unit == 'h' {
        3600
    } else {
        0
    };
    if mult == 0 {
        return None;
    }
    assert(field@.subrange(lo as int, hi - 1) =~= p.drop_last());
    match parse_decimal(field, lo, hi - 1) {
        None => {
            assert(decimal_value(p.drop_last()) * mult >= decimal_value(p.drop_last())) by (nonlinear_arith)
                requires
                    mult >= 1,
            {
            }
            None
        },
        Some(num) => num.checked_mul(mult),
    }
}

/// The message of a duration error.
pub open spec fn invalid_duration_text() -> Seq<char> {
    seq!['i', 'n', 'v', 'a', 'l', 'i', 'd', ' ', 'd', 'u', 'r', 'a', 't', 'i', 'o', 'n']
}

/// `e` is the error that `parse_hms_field` gives for the field `field`.
pub open spec fn hms_error(e: SchedulerError, field: Seq<char>) -> bool {
    match e {
        SchedulerError::HmsParseError { err, field: f } => f@ == field && err@ == invalid_duration_text(),
        _ => false,
    }
}

/// Parses a duration written `Xh Ym Zs`: pieces separated by single spaces,
/// each a decimal number followed by `h`, `m` or `s`. Gives seconds.
pub fn parse_hms_field(field: &str) -> (r: Result<u64, SchedulerError>)
    ensures
        hms_ok(field@) ==> r == Ok::<u64, SchedulerError>(hms_seconds(field@)->0 as u64),
        !hms_ok(field@) ==> r is Err && hms_error(r->Err_0, field@),
{
    let bounds = split_spaces_bounds(field);
    let ghost ps = split_spaces(field@);
    let mut total: u64 = 0;
    let mut k: usize = 0;
    proof {
        assert(ps.subrange(0, 0) =~= Seq::<Seq<char>>::empty());
    }
    while k < bounds.len()
        invariant
            bounds@.len() == ps.len(),
            ps == split_spaces(field@),
            forall|j: int|
                0 <= j < bounds@.len() ==> (#[trigger] bounds@[j]).0 <= bounds@[j].1 <= field@.len()
                    && field@.subrange(bounds@[j].0 as int, bounds@[j].1 as int) == ps[j],
            k <= bounds@.len(),
            parts_seconds(ps.subrange(0, k as int)) == Some(total as nat),
        decreases bounds.len() - k,
    {
        let (lo, hi) = bounds[k];
        let ghost p = ps[k as int];
        proof {
            assert(ps.subrange(0, k + 1).drop_last() =~= ps.subrange(0, k as int));
            assert(ps.subrange(0, k + 1).last() == p);
            lemma_parts_seconds_grow(ps, k + 1, ps.len() as int);
            assert(ps.subrange(0, ps.len() as int) =~= ps);
        }
        let ok: Option<u64> = match part_value(field, lo, hi) {
            Some(v) => total.checked_add(v),
            None => None,
        };
        match ok {
            Some(t) => {
                total = t;
            },
            None => {
                assert(parts_seconds(ps.subrange(0, k + 1)) is None || parts_seconds(
                    ps.subrange(0, k + 1),
                )->0 > u64::MAX);
                proof {
                    reveal_strlit("invalid duration");
                }
                let err = String::from_str("invalid duration");
                assert(err@ =~= invalid_duration_text());
                return Err(SchedulerError::HmsParseError { err, field: String::from_str(field) });
            },
        }
        k = k + 1;
    }
    proof {
        assert(ps.subrange(0, k as int) =~= ps);
    }
    Ok(total)
}

/// The decimal digits of a number, without leading zeros.
pub open spec fn digits_text(n: nat) -> Seq<char>
    decreases n,
{
    if n < 10 {
        seq![hex_char(n as int)]
    } else {
        digits_text(n / 10).push(hex_char((n % 10) as int))
    }
}

/// The decimal text of an integer, after a minus sign when it is negative.
pub open spec fn int_text(v: int) -> Seq<char> {
    if v < 0 {
        seq!['-'] + digits_text((-v) as nat)
    } else {
        digits_text(v as nat)
    }
}

fn digits_string(n: u32) -> (r: String)
    ensures
        r@ == digits_text(n as nat),
    decreases n,
{
    if n < 10 {
        String::from_str(hex_digit(n as u8))
    } else {
        let mut s = digits_string(n / 10);
        s.append(hex_digit((n % 10) as u8));
        s
    }
}

fn i32_text(v: i32) -> (r: String)
    ensures
        r@ == int_text(v as int),
{
    if v < 0 {
        proof {
            reveal_strlit("-");
        }
        let mut s = String::from_str("-");
        let digits = digits_string((-(v as i64)) as u32);
        s.append(digits.as_str());
        assert(s@ =~= int_text(v as int));
        s
    } else {
        digits_string(v as u32)
    }
}

/// A name for the instant that `NaiveDateTime::parse_from_str` reads out of
/// a `YYYY-MM-DD HH:MM:SS` text taken as UTC, in seconds since the Unix
/// epoch; `None` where the text does not parse.
pub uninterp spec fn utc_timestamp(s: Seq<char>) -> Option<i64>;

/// Relies on chrono's `NaiveDateTime::parse_from_str` with the format
/// `%Y-%m-%d %H:%M:%S`, and on `DateTime::timestamp` of the UTC reading.
#[verifier::external_body]
fn parse_utc_time(s: &str) -> (r: Option<i64>)
    ensures
        r == utc_timestamp(s@),
{
    match chrono::NaiveDateTime::parse_from_str(s, "%Y-%m-%d %H:%M:%S") {
        Ok(d) => Some(d.and_utc().timestamp()),
        Err(_) => None,
    }
}

/// Relies on chrono's `Utc::now` and `DateTime::timestamp`: the current
/// time in seconds since the Unix epoch. Nothing is known of its value.
#[verifier::external_body]
fn now_seconds() -> (r: i64) {
    chrono::Utc::now().timestamp()
}

/// How resolving a task's first firing turns out.
pub enum FireOutcome {
    At(int),
    Malformed,
    OutOfWindow,
    BadDuration,
}

/// When a task with these fields first fires, at time `now`.
pub open spec fn first_fire(delay: Option<Seq<char>>, time: Option<Seq<char>>, now: int) -> FireOutcome {
    if delay is Some && time is Some {
        FireOutcome::Malformed
    } else if delay is Some {
        if !hms_ok(delay->0) {
            FireOutcome::BadDuration
        } else if now + hms_seconds(delay->0)->0 > i64::MAX {
            FireOutcome::Malformed
        } else {
            FireOutcome::At(now + hms_seconds(delay->0)->0)
        }
    } else if time is Some {
        match utc_timestamp(time->0) {
            None => FireOutcome::Malformed,
            Some(t) => if t < now || t - now > MAX_LEAD_SECONDS {
                FireOutcome::OutOfWindow
            } else {
                FireOutcome::At(t as int)
            },
        }
    } else {
        FireOutcome::Malformed
    }
}

pub open spec fn opt_view(s: Option<String>) -> Option<Seq<char>> {
    match s {
        Some(v) => Some(v@),
        None => None,
    }
}

pub open spec fn fire_outcome_of(r: Result<i64, SchedulerError>) -> FireOutcome {
    match r {
        Ok(t) => FireOutcome::At(t as int),
        Err(SchedulerError::TaskParseError { .. }) => FireOutcome::Malformed,
        Err(SchedulerError::TaskTimeError { .. }) => FireOutcome::OutOfWindow,
        Err(SchedulerError::HmsParseError { .. }) => FireOutcome::BadDuration,
        Err(SchedulerError::TaskListParseError { .. }) => FireOutcome::Malformed,
    }
}

pub open spec fn is_list_error(r: Result<i64, SchedulerError>) -> bool {
    r matches Err(SchedulerError::TaskListParseError { .. })
}

/// The period of a task that has one, when it is well formed.
pub open spec fn period_ok(period: Option<Seq<char>>) -> bool {
    period is None || hms_ok(period->0)
}

/// A task that may stand in a task list: its timing is well formed, though
/// its `time` may lie outside the window.
pub open spec fn task_fit(t: Task, now: int) -> bool {
    let o = first_fire(opt_view(t.delay), opt_view(t.time), now);
    !(o is Malformed) && !(o is BadDuration) && period_ok(opt_view(t.period))
}

/// What `get_absolute_at` gives for task `t` at time `now`: the outcome of
/// `first_fire`; a malformed or out-of-window task names itself, and a bad
/// delay gives the duration error of the delay field.
pub open spec fn absolute_result(t: Task, now: int, r: Result<i64, SchedulerError>) -> bool {
    &&& fire_outcome_of(r) == first_fire(opt_view(t.delay), opt_view(t.time), now)
    &&& !is_list_error(r)
    &&& match r {
        Err(SchedulerError::TaskParseError { description: d, .. }) => d@ == t.description_text(),
        Err(SchedulerError::TaskTimeError { description: d, .. }) => d@ == t.description_text(),
        Err(e) => e is HmsParseError && opt_view(t.delay) is Some && hms_error(e, opt_view(t.delay)->0),
        _ => true,
    }
}

/// The error with which a task that is not fit fails its list: that of its
/// timing, or else that of its period.
pub open spec fn task_error(t: Task, now: int, e: SchedulerError) -> bool {
    let o = first_fire(opt_view(t.delay), opt_view(t.time), now);
    if o is Malformed {
        match e {
            SchedulerError::TaskParseError { description: d, .. } => d@ == t.description_text(),
            _ => false,
        }
    } else if o is BadDuration {
        hms_error(e, opt_view(t.delay)->0)
    } else {
        hms_error(e, opt_view(t.period)->0)
    }
}

impl Task {
    pub open spec fn description_text(&self) -> Seq<char> {
        match self.id {
            Some(i) => int_text(i as int) + seq![':', ' '] + self.app.name@,
            None => self.app.name@,
        }
    }

    /// `id: name` for a task with an id, the app's name otherwise.
    pub fn description(&self) -> (r: String)
        ensures
            r@ == self.description_text(),
    {
        match self.id {
            Some(i) => {
                let mut s = i32_text(i);
                proof {
                    reveal_strlit(": ");
                }
                s.append(": ");
                s.append(self.app.name.as_str());
                assert(s@ =~= self.description_text());
                s
            },
            None => self.app.name.clone(),
        }
    }

    /// The first firing of the task, in seconds since the Unix epoch, when
    /// the current time is `now`: `delay` after now, or the `time`, which
    /// must lie within 90 days from now.
    pub fn get_absolute_at(&self, now: i64) -> (r: Result<i64, SchedulerError>)
        ensures
            absolute_result(*self, now as int, r),
    {
        if self.delay.is_some() && self.time.is_some() {
            return Err(
                SchedulerError::TaskParseError {
                    err: String::from_str("both delay and time defined"),
                    description: self.description(),
                },
            );
        }
        match &self.delay {
            Some(delay) => {
                let d = match parse_hms_field(delay.as_str()) {
                    Ok(d) => d,
                    Err(e) => {
                        return Err(e);
                    },
                };
                if now as i128 + d as i128 > i64::MAX as i128 {
                    return Err(
                        SchedulerError::TaskParseError {
                            err: String::from_str("delay out of range"),
                            description: self.description(),
                        },
                    );
                }
                Ok((now as i128 + d as i128) as i64)
            },
            None => match &self.time {
                Some(time) => match parse_utc_time(time.as_str()) {
                    None => Err(
                        SchedulerError::TaskParseError {
                            err: String::from_str("failed to parse time field"),
                            description: self.description(),
                        },
                    ),
                    Some(t) => {
                        if t < now || t as i128 - now as i128 > MAX_LEAD_SECONDS as i128 {
                            Err(
                                SchedulerError::TaskTimeError {
                                    err: String::from_str("time outside the next 90 days"),
                                    description: self.description(),
                                },
                            )
                        } else {
                            Ok(t)
                        }
                    },
                },
                None => Err(
                    SchedulerError::TaskParseError {
                        err: String::from_str("no delay or time defined"),
                        description: self.description(),
                    },
                ),
            },
        }
    }

    /// The first firing of the task, from the current time; whatever the
    /// clock says, the result is what `get_absolute_at` gives for some time.
    pub fn get_absolute(&self) -> (r: Result<i64, SchedulerError>)
        ensures
            exists|now: i64| #[trigger] absolute_result(*self, now as int, r),
    {
        let now = now_seconds();
        self.get_absolute_at(now)
    }

    /// The period of a periodic task, in seconds.
    pub fn get_period(&self) -> (r: Result<Option<u64>, SchedulerError>)
        ensures
            self.period is None ==> r == Ok::<Option<u64>, SchedulerError>(None),
            self.period is Some && hms_ok(self.period->0@) ==> r == Ok::<Option<u64>, SchedulerError>(
                Some(hms_seconds(self.period->0@)->0 as u64),
            ),
            self.period is Some && !hms_ok(self.period->0@) ==> r is Err && hms_error(r->Err_0, self.period->0@),
    {
        match &self.period {
            Some(p) => {
                match parse_hms_field(p.as_str()) {
                    Ok(s) => Ok(Some(s)),
                    Err(e) => Err(e),
                }
            },
            None => Ok(None),
        }
    }
}

/// Checks every task of a list at time `now`: a `time` outside the window
/// is accepted (the task is skipped when scheduled); any other fault of a
/// task fails the list with that task's error.
pub fn validate_task_list(list: &TaskList, now: i64) -> (r: Result<(), SchedulerError>)
    ensures
        r is Ok <==> forall|i: int| 0 <= i < list.tasks@.len() ==> task_fit(#[trigger] list.tasks@[i], now as int),
        r is Err ==> exists|i: int|
            0 <= i < list.tasks@.len() && !task_fit(#[trigger] list.tasks@[i], now as int) && task_error(
                list.tasks@[i],
                now as int,
                r->Err_0,
            ) && forall|j: int| 0 <= j < i ==> task_fit(#[trigger] list.tasks@[j], now as int),
        !(r matches Err(SchedulerError::TaskTimeError { .. })),
        !(r matches Err(SchedulerError::TaskListParseError { .. })),
{
    let mut i: usize = 0;
    while i < list.tasks.len()
        invariant
            i <= list.tasks@.len(),
            forall|j: int| 0 <= j < i ==> task_fit(#[trigger] list.tasks@[j], now as int),
        decreases list.tasks.len() - i,
    {
        let task = &list.tasks[i];
        match task.get_absolute_at(now) {
            Ok(_) => {},
            Err(SchedulerError::TaskTimeError { .. }) => {},
            Err(e) => {
                return Err(e);
            },
        }
        match task.get_period() {
            Ok(_) => {},
            Err(e) => {
                return Err(e);
            },
        }
        i = i + 1;
    }
    Ok(())
}

} // verus!
