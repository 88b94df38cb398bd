//! Decisions of the capture scheduler: Task Scheduler task names, weekday and
//! time parsing, the plan of a scheduled task, and the periodic cleanup timer.

use vstd::prelude::*;
use vstd::string::StringExecFns;
use crate::storage::SECS_PER_DAY;
use crate::text::{
    chars_of, decimal, is_digit, lemma_decimal_digits, lemma_parse_decimal_roundtrip,
    ascii_upper, is_ascii_char, parse_u32_range, parse_u32_spec, push_decimal, replace_char, replaced, spec_to_uppercase,
    to_uppercase,
};

verus! {

/// Prefix of every Task Scheduler entry that this program creates.
pub const TASK_PREFIX: &'static str = "Recall";

/// Errors of the scheduling commands.
#[derive(Debug)]
pub enum ScheduleError {
    /// The weekday is none of MON..SUN or MONDAY..SUNDAY (any case).
    UnknownDay(String),
    /// The time is not of the form `HH:MM` (exactly one colon).
    BadTimeFormat(String),
    /// The hours are not a number from 0 to 23.
    BadHours,
    /// The minutes are not a number from 0 to 59.
    BadMinutes,
}

/// Name of the task that starts capturing: `Recall_<name>`.
pub open spec fn start_task_name(name: Seq<char>) -> Seq<char> {
    TASK_PREFIX@ + "_"@ + name
}

/// Name of the task that stops capturing: `Recall_<name>_stop`.
pub open spec fn stop_task_name(name: Seq<char>) -> Seq<char> {
    TASK_PREFIX@ + "_"@ + name + "_stop"@
}

/// The name of the start task for the schedule `name`.
pub fn task_name_start(name: &str) -> (r: String)
    ensures
        r@ == start_task_name(name@),
{
    let mut r = String::from_str(TASK_PREFIX);
    r.append("_");
    r.append(name);
    r
}

/// The name of the stop task for the schedule `name`.
pub fn task_name_stop(name: &str) -> (r: String)
    ensures
        r@ == stop_task_name(name@),
{
    let mut r = task_name_start(name);
    r.append("_stop");
    r
}

/// Law: the stop task is named after the start task, with `_stop` appended,
/// and both carry the common prefix.
pub proof fn lemma_task_names(name: Seq<char>)
    ensures
        stop_task_name(name) == start_task_name(name) + "_stop"@,
        start_task_name(name).take(TASK_PREFIX@.len() as int) == TASK_PREFIX@,
{
    assert(start_task_name(name).take(TASK_PREFIX@.len() as int) =~= TASK_PREFIX@);
}

/// The English weekday that an upper-case day code names.
pub open spec fn weekday_of_upper(u: Seq<char>) -> Option<Seq<char>> {
    if u == "MON"@ || u == "MONDAY"@ {
        Some("Monday"@)
    } else if u == "TUE"@ || u == "TUESDAY"@ {
        Some("Tuesday"@)
    } else if u == "WED"@ || u == "WEDNESDAY"@ {
        Some("Wednesday"@)
    } else if u == "THU"@ || u == "THURSDAY"@ {
        Some("Thursday"@)
    } else if u == "FRI"@ || u == "FRIDAY"@ {
        Some("Friday"@)
    } else if u == "SAT"@ || u == "SATURDAY"@ {
        Some("Saturday"@)
    } else if u == "SUN"@ || u == "SUNDAY"@ {
        Some("Sunday"@)
    } else {
        None
    }
}

/// Law: the weekday names that `day_code` returns are all ASCII and name
/// themselves, so `day_code` accepts its own results and returns them unchanged.
pub proof fn lemma_weekdays_name_themselves(u: Seq<char>)
    requires
        weekday_of_upper(u) is Some,
    ensures
        ({
            let n = weekday_of_upper(u).unwrap();
            &&& forall|i: int| 0 <= i < n.len() ==> is_ascii_char(#[trigger] n[i])
            &&& weekday_of_upper(ascii_upper(n)) == Some(n)
        }),
{
    reveal_strlit("Monday");
    reveal_strlit("MONDAY");
    reveal_strlit("MON");
    reveal_strlit("Tuesday");
    reveal_strlit("TUESDAY");
    reveal_strlit("TUE");
    reveal_strlit("Wednesday");
    reveal_strlit("WEDNESDAY");
    reveal_strlit("WED");
    reveal_strlit("Thursday");
    reveal_strlit("THURSDAY");
    reveal_strlit("THU");
    reveal_strlit("Friday");
    reveal_strlit("FRIDAY");
    reveal_strlit("FRI");
    reveal_strlit("Saturday");
    reveal_strlit("SATURDAY");
    reveal_strlit("SAT");
    reveal_strlit("Sunday");
    reveal_strlit("SUNDAY");
    reveal_strlit("SUN");
    let n = weekday_of_upper(u).unwrap();
    if n == "Monday"@ {
        assert(ascii_upper(n) =~= "MONDAY"@);
        assert(weekday_of_upper("MONDAY"@) == Some(n));
        assert(forall|i: int| 0 <= i < n.len() ==> is_ascii_char(#[trigger] n[i]));
    } else if n == "Tuesday"@ {
        assert(ascii_upper(n) =~= "TUESDAY"@);
        assert(weekday_of_upper("TUESDAY"@) == Some(n));
        assert(forall|i: int| 0 <= i < n.len() ==> is_ascii_char(#[trigger] n[i]));
    } else if n == "Wednesday"@ {
        assert(ascii_upper(n) =~= "WEDNESDAY"@);
        assert(weekday_of_upper("WEDNESDAY"@) == Some(n));
        assert(forall|i: int| 0 <= i < n.len() ==> is_ascii_char(#[trigger] n[i]));
    } else if n == "Thursday"@ {
        assert(ascii_upper(n) =~= "THURSDAY"@);
        assert(weekday_of_upper("THURSDAY"@) == Some(n));
        assert(forall|i: int| 0 <= i < n.len() ==> is_ascii_char(#[trigger] n[i]));
    } else if n == "Friday"@ {
        assert(ascii_upper(n) =~= "FRIDAY"@);
        assert("FRIDAY"@[0] != "MONDAY"@[0]);
        assert(weekday_of_upper("FRIDAY"@) == Some(n));
        assert(forall|i: int| 0 <= i < n.len() ==> is_ascii_char(#[trigger] n[i]));
    } else if n == "Saturday"@ {
        assert(ascii_upper(n) =~= "SATURDAY"@);
        assert("SATURDAY"@[0] != "THURSDAY"@[0]);
        assert(weekday_of_upper("SATURDAY"@) == Some(n));
        assert(forall|i: int| 0 <= i < n.len() ==> is_ascii_char(#[trigger] n[i]));
    } else {
        assert(ascii_upper(n) =~= "SUNDAY"@);
        assert("SUNDAY"@[0] != "MONDAY"@[0]);
        assert("SUNDAY"@[0] != "FRIDAY"@[0]);
        assert(weekday_of_upper("SUNDAY"@) == Some(n));
        assert(forall|i: int| 0 <= i < n.len() ==> is_ascii_char(#[trigger] n[i]));
    }
}

fn is_one_of(u: &String, short: &str, long: &str) -> (b: bool)
    ensures
        b == (u@ == short@ || u@ == long@),
{
    let s = String::from_str(short);
    let l = String::from_str(long);
    *u == s || *u == l
}

/// The weekday named by an already upper-cased day code.
pub fn weekday_from_upper(upper: &String) -> (r: Option<String>)
    ensures
        match r {
            Some(d) => weekday_of_upper(upper@) == Some(d@),
            None => weekday_of_upper(upper@) is None,
        },
{
    if is_one_of(upper, "MON", "MONDAY") {
        Some(String::from_str("Monday"))
    } else if is_one_of(upper, "TUE", "TUESDAY") {
        Some(String::from_str("Tuesday"))
    } else if is_one_of(upper, "WED", "WEDNESDAY") {
        Some(String::from_str("Wednesday"))
    } else if is_one_of(upper, "THU", "THURSDAY") {
        Some(String::from_str("Thursday"))
    } else if is_one_of(upper, "FRI", "FRIDAY") {
        Some(String::from_str("Friday"))
    } else if is_one_of(upper, "SAT", "SATURDAY") {
        Some(String::from_str("Saturday"))
    } else if is_one_of(upper, "SUN", "SUNDAY") {
        Some(String::from_str("Sunday"))
    } else {
        None
    }
}

/// The weekday that the Task Scheduler expects for a day code given in any case.
pub fn day_code(day: &str) -> (r: Result<String, ScheduleError>)
    ensures
        (forall|i: int| 0 <= i < day@.len() ==> is_ascii_char(#[trigger] day@[i]))
            ==> spec_to_uppercase(day@) == ascii_upper(day@),
        match r {
            Ok(d) => weekday_of_upper(spec_to_uppercase(day@)) == Some(d@),
            Err(e) => {
                &&& weekday_of_upper(spec_to_uppercase(day@)) is None
                &&& e matches ScheduleError::UnknownDay(given)
                &&& given@ == day@
            },
        },
{
    let upper = to_uppercase(day);
    match weekday_from_upper(&upper) {
        Some(d) => Ok(d),
        None => Err(ScheduleError::UnknownDay(String::from_str(day))),
    }
}


/// The pieces of `s` between colons, as `str::split(':')` yields them.
pub open spec fn split_colon(s: Seq<char>) -> Seq<Seq<char>>
    decreases s.len(),
{
    if s.len() == 0 {
        seq![seq![]]
    } else {
        let p = split_colon(s.drop_last());
        if s.last() == ':' {
            p.push(seq![])
        } else {
            p.update(p.len() - 1, p.last().push(s.last()))
        }
    }
}

/// The hour of a time field: a number from 0 to 23.
pub open spec fn hour_value(f: Seq<char>) -> Option<u32> {
    match parse_u32_spec(f) {
        Some(h) => if h <= 23 { Some(h) } else { None },
        None => None,
    }
}

/// The minute of a time field: a number from 0 to 59.
pub open spec fn minute_value(f: Seq<char>) -> Option<u32> {
    match parse_u32_spec(f) {
        Some(m) => if m <= 59 { Some(m) } else { None },
        None => None,
    }
}

/// The hours and minutes of a time of day `HH:MM`: exactly two
/// colon-separated fields, hours from 0 to 23 and minutes from 0 to 59, each
/// written as an unsigned number (as `u32` parsing reads it).
pub open spec fn time_fields(t: Seq<char>) -> Option<(u32, u32)> {
    let parts = split_colon(t);
    if parts.len() == 2 && hour_value(parts[0]) is Some && minute_value(parts[1]) is Some {
        Some((hour_value(parts[0]).unwrap(), minute_value(parts[1]).unwrap()))
    } else {
        None
    }
}

/// `e` is the error that a time `t` is rejected with: a wrong number of
/// fields first, then bad hours, then bad minutes.
pub open spec fn time_error(t: Seq<char>, e: ScheduleError) -> bool {
    let parts = split_colon(t);
    match e {
        ScheduleError::BadTimeFormat(given) => parts.len() != 2 && given@ == t,
        ScheduleError::BadHours => parts.len() == 2 && hour_value(parts[0]) is None,
        ScheduleError::BadMinutes => {
            &&& parts.len() == 2
            &&& hour_value(parts[0]) is Some
            &&& minute_value(parts[1]) is None
        },
        ScheduleError::UnknownDay(_) => false,
    }
}

/// Splits a time `HH:MM` into its hours and minutes, each written back in
/// plain decimal (leading zeros and a `+` dropped).
pub fn ps_hours_minutes(time: &str) -> (r: Result<(String, String), ScheduleError>)
    ensures
        match r {
            Ok((h, m)) => time_fields(time@) matches Some((hv, mv)) && h@ == decimal(hv as nat)
                && m@ == decimal(mv as nat),
            Err(e) => time_error(time@, e),
        },
{
    let v = chars_of(time);
    let mut count: usize = 0;
    let mut first: usize = 0;
    assert(v@.take(0) =~= Seq::<char>::empty());
    assert(split_colon(v@.take(0)) =~~= seq![v@.take(0)]);
    for i in 0..v.len()
        invariant
            v@ == time@,
            count <= i,
            split_colon(v@.take(i as int)).len() == count + 1,
            count == 0 ==> split_colon(v@.take(i as int)) =~~= seq![v@.take(i as int)],
            count >= 1 ==> first < i && v@[first as int] == ':',
            count == 1 ==> split_colon(v@.take(i as int)) =~~= seq![
                v@.take(first as int),
                v@.subrange(first + 1, i as int),
            ],
    {
        let ghost t = v@.take(i + 1);
        assert(t.drop_last() =~= v@.take(i as int));
        assert(t.last() == v@[i as int]);
        if v[i] == ':' {
            if count == 0 {
                first = i;
                assert(split_colon(t) =~~= seq![v@.take(first as int), v@.subrange(first + 1, i + 1)]);
            }
            count = count + 1;
        } else {
            if count == 0 {
                assert(split_colon(t) =~~= seq![t]);
            } else if count == 1 {
                assert(v@.subrange(first + 1, i + 1) =~= v@.subrange(first + 1, i as int).push(v@[i as int]));
                assert(split_colon(t) =~~= seq![v@.take(first as int), v@.subrange(first + 1, i + 1)]);
            }
        }
    }
    assert(v@.take(v@.len() as int) =~= v@);
    if count != 1 {
        return Err(ScheduleError::BadTimeFormat(String::from_str(time)));
    }
    assert(v@.subrange(0, first as int) =~= v@.take(first as int));
    let hours = match parse_u32_range(&v, 0, first) {
        Some(h) if h <= 23 => h,
        _ => {
            return Err(ScheduleError::BadHours);
        },
    };
    let minutes = match parse_u32_range(&v, first + 1, v.len()) {
        Some(m) if m <= 59 => m,
        _ => {
            return Err(ScheduleError::BadMinutes);
        },
    };
    let mut h = String::new();
    push_decimal(&mut h, hours as u64);
    let mut m = String::new();
    push_decimal(&mut m, minutes as u64);
    assert(h@ =~= decimal(hours as nat));
    assert(m@ =~= decimal(minutes as nat));
    Ok((h, m))
}

/// A string without colons is a single field.
proof fn lemma_split_no_colon(s: Seq<char>)
    requires
        forall|i: int| 0 <= i < s.len() ==> s[i] != ':',
    ensures
        split_colon(s) =~~= seq![s],
    decreases s.len(),
{
    if s.len() > 0 {
        lemma_split_no_colon(s.drop_last());
        assert(s.drop_last().push(s.last()) =~= s);
    }
}

/// A colon between two colon-free strings separates exactly two fields.
proof fn lemma_split_two(a: Seq<char>, b: Seq<char>)
    requires
        forall|i: int| 0 <= i < a.len() ==> a[i] != ':',
        forall|i: int| 0 <= i < b.len() ==> b[i] != ':',
    ensures
        split_colon(a + seq![':'] + b) =~~= seq![a, b],
    decreases b.len(),
{
    if b.len() == 0 {
        lemma_split_no_colon(a);
        assert((a + seq![':'] + b).drop_last() =~= a);
    } else {
        lemma_split_two(a, b.drop_last());
        assert((a + seq![':'] + b).drop_last() =~= a + seq![':'] + b.drop_last());
        assert(b.drop_last().push(b.last()) =~= b);
    }
}

/// Law: a time written as `ps_hours_minutes` writes its fields reads back as
/// the same hours and minutes.
pub proof fn lemma_time_fields_canonical(h: u32, m: u32)
    requires
        h <= 23,
        m <= 59,
    ensures
        time_fields(decimal(h as nat) + seq![':'] + decimal(m as nat)) == Some((h, m)),
{
    lemma_decimal_digits(h as nat);
    lemma_decimal_digits(m as nat);
    let a = decimal(h as nat);
    let b = decimal(m as nat);
    assert forall|i: int| 0 <= i < a.len() implies a[i] != ':' by {
        assert(is_digit(a[i]));
    }
    assert forall|i: int| 0 <= i < b.len() implies b[i] != ':' by {
        assert(is_digit(b[i]));
    }
    lemma_split_two(a, b);
    lemma_parse_decimal_roundtrip(h);
    lemma_parse_decimal_roundtrip(m);
}


/// First line of the launcher scripts, and the start of the command line.
pub const VBS_HEAD: &'static str = "Set WshShell = CreateObject(\"WScript.Shell\")\r\nWshShell.Run \"";

/// End of the command line of the launcher scripts: hidden window, no wait.
pub const VBS_TAIL: &'static str = "\", 0, False\r\n";

/// The command that ends a running capture.
pub const STOP_COMMAND: &'static str = "taskkill /F /IM recall-cli.exe";

/// Everything a scheduled capture needs: task names, trigger fields and the
/// contents of the two launcher scripts.
pub struct SchedulePlan {
    pub start_task: String,
    pub stop_task: String,
    pub day: String,
    pub start_hour: String,
    pub start_minute: String,
    pub end_hour: String,
    pub end_minute: String,
    /// Command line that the start task runs.
    pub start_command: String,
    /// Launcher script of the start task.
    pub start_vbs: String,
    /// Launcher script of the stop task.
    pub stop_vbs: String,
    /// File name of the start task's launcher script, one per schedule name.
    pub start_vbs_file: String,
    /// File name of the stop task's launcher script, one per schedule name.
    pub stop_vbs_file: String,
    /// `true` when each trigger takes a single snapshot and the task repeats
    /// itself every `interval_minutes`; `false` when one long-running capture
    /// is started with the interval in seconds.
    pub repeating: bool,
    pub interval_minutes: String,
}

/// The command line of the start task: a long-running capture for intervals
/// under a minute, a single snapshot otherwise.
pub open spec fn start_command_spec(exe: Seq<char>, interval: u64) -> Seq<char> {
    if interval < 60 {
        "\""@ + exe + "\" start --interval "@ + decimal(interval as nat)
    } else {
        "\""@ + exe + "\" snapshot"@
    }
}

/// A launcher script that runs `command` (already quoted for VBScript) hidden.
pub open spec fn vbs_script(command: Seq<char>) -> Seq<char> {
    VBS_HEAD@ + command + VBS_TAIL@
}

/// `p` is the plan for the given arguments, all of which are valid.
pub open spec fn is_schedule_plan(
    p: SchedulePlan,
    exe: Seq<char>,
    name: Seq<char>,
    day: Seq<char>,
    start: Seq<char>,
    end: Seq<char>,
    interval: u64,
) -> bool {
    &&& weekday_of_upper(spec_to_uppercase(day)) == Some(p.day@)
    &&& time_fields(start) matches Some((sh, sm))
    &&& time_fields(end) matches Some((eh, em))
    &&& p.start_hour@ == decimal(sh as nat)
    &&& p.start_minute@ == decimal(sm as nat)
    &&& p.end_hour@ == decimal(eh as nat)
    &&& p.end_minute@ == decimal(em as nat)
    &&& p.start_task@ == start_task_name(name)
    &&& p.stop_task@ == stop_task_name(name)
    &&& p.start_command@ == start_command_spec(exe, interval)
    &&& p.start_vbs@ == vbs_script(replaced(start_command_spec(exe, interval), '"', "\"\""@))
    &&& p.stop_vbs@ == vbs_script(STOP_COMMAND@)
    &&& p.start_vbs_file@ == start_task_name(name) + ".vbs"@
    &&& p.stop_vbs_file@ == stop_task_name(name) + ".vbs"@
    &&& p.repeating == (interval >= 60)
    &&& p.interval_minutes@ == decimal((interval / 60) as nat)
}

/// Law: the start task takes a single snapshot exactly when it repeats, and
/// it repeats exactly for intervals of a minute or more; shorter intervals
/// start one long-running capture with the interval in seconds.
pub proof fn lemma_snapshot_exactly_when_repeating(
    p: SchedulePlan,
    exe: Seq<char>,
    name: Seq<char>,
    day: Seq<char>,
    start: Seq<char>,
    end: Seq<char>,
    interval: u64,
)
    requires
        is_schedule_plan(p, exe, name, day, start, end, interval),
    ensures
        p.repeating <==> interval >= 60,
        p.repeating <==> p.start_command@ == "\""@ + exe + "\" snapshot"@,
        !p.repeating ==> p.start_command@ == "\""@ + exe + "\" start --interval "@ + decimal(
            interval as nat,
        ),
{
    reveal_strlit("\"");
    reveal_strlit("\" snapshot");
    reveal_strlit("\" start --interval ");
    if interval < 60 {
        let q = "\""@ + exe;
        let k: int = q.len() as int + 3;
        let long = q + "\" start --interval "@ + decimal(interval as nat);
        let snap = q + "\" snapshot"@;
        assert(long[k] == 't');
        assert(snap[k] == 'n');
    }
}

/// `e` is the error that scheduling rejects these arguments with: the day is
/// checked first, then the start time, then the end time.
pub open spec fn schedule_error(day: Seq<char>, start: Seq<char>, end: Seq<char>, e: ScheduleError) -> bool {
    if weekday_of_upper(spec_to_uppercase(day)) is None {
        e matches ScheduleError::UnknownDay(given) && given@ == day
    } else if time_fields(start) is None {
        time_error(start, e)
    } else {
        time_fields(end) is None && time_error(end, e)
    }
}

/// A time is rejected exactly when it has no fields.
proof fn lemma_time_error_iff(t: Seq<char>, e: ScheduleError)
    requires
        time_error(t, e),
    ensures
        time_fields(t) is None,
{
}

/// Plans a weekly scheduled capture from the command-line arguments, given the
/// path of the running program.
pub fn plan_schedule(
    exe: &str,
    name: &str,
    day: &str,
    start: &str,
    end: &str,
    interval: u64,
) -> (r: Result<SchedulePlan, ScheduleError>)
    ensures
        (forall|i: int| 0 <= i < day@.len() ==> is_ascii_char(#[trigger] day@[i]))
            ==> spec_to_uppercase(day@) == ascii_upper(day@),
        match r {
            Ok(p) => is_schedule_plan(p, exe@, name@, day@, start@, end@, interval),
            Err(e) => schedule_error(day@, start@, end@, e),
        },
{
    let day_name = day_code(day)?;
    let (start_hour, start_minute) = match ps_hours_minutes(start) {
        Ok(hm) => hm,
        Err(e) => {
            proof { lemma_time_error_iff(start@, e); }
            return Err(e);
        },
    };
    let (end_hour, end_minute) = match ps_hours_minutes(end) {
        Ok(hm) => hm,
        Err(e) => {
            proof { lemma_time_error_iff(end@, e); }
            return Err(e);
        },
    };
    let mut start_command = String::from_str("\"");
    start_command.append(exe);
    if interval < 60 {
        start_command.append("\" start --interval ");
        push_decimal(&mut start_command, interval);
    } else {
        start_command.append("\" snapshot");
    }
    let mut start_vbs = String::from_str(VBS_HEAD);
    let quoted = replace_char(start_command.as_str(), '"', "\"\"");
    start_vbs.append(quoted.as_str());
    start_vbs.append(VBS_TAIL);
    let mut stop_vbs = String::from_str(VBS_HEAD);
    stop_vbs.append(STOP_COMMAND);
    stop_vbs.append(VBS_TAIL);
    let mut interval_minutes = String::new();
    push_decimal(&mut interval_minutes, interval / 60);
    assert(interval_minutes@ =~= decimal((interval / 60) as nat));
    let start_task = task_name_start(name);
    let stop_task = task_name_stop(name);
    let mut start_vbs_file = start_task.clone();
    start_vbs_file.append(".vbs");
    let mut stop_vbs_file = stop_task.clone();
    stop_vbs_file.append(".vbs");
    let plan = SchedulePlan {
        start_task,
        stop_task,
        day: day_name,
        start_hour,
        start_minute,
        end_hour,
        end_minute,
        start_command,
        start_vbs,
        stop_vbs,
        start_vbs_file,
        stop_vbs_file,
        repeating: interval >= 60,
        interval_minutes,
    };
    assert(plan.start_command@ =~= start_command_spec(exe@, interval));
    assert(plan.start_vbs@ =~= vbs_script(replaced(start_command_spec(exe@, interval), '"', "\"\""@)));
    assert(plan.stop_vbs@ =~= vbs_script(STOP_COMMAND@));
    Ok(plan)
}


// ---------------------------------------------------------------------------
// Periodic cleanup while capturing
// ---------------------------------------------------------------------------

/// When the running capture last cleaned up old screenshots, and how old a
/// screenshot must be to go (no cleanup when `max_age_days` is `None`).
pub struct CleanupTimer {
    pub max_age_days: Option<u64>,
    pub last_secs: i64,
    pub last_nanos: u32,
}

/// Instant `a` is not later than instant `b` (seconds, then nanoseconds).
pub open spec fn instant_le(a_secs: int, a_nanos: int, b_secs: int, b_nanos: int) -> bool {
    a_secs < b_secs || (a_secs == b_secs && a_nanos <= b_nanos)
}

/// A cleanup is due at `now`: cleanup is enabled and a full day has passed
/// since the last one (or since the capture started).
pub open spec fn cleanup_due(t: CleanupTimer, now_secs: i64, now_nanos: u32) -> bool {
    &&& t.max_age_days is Some
    &&& instant_le(t.last_secs + SECS_PER_DAY, t.last_nanos as int, now_secs as int, now_nanos as int)
}

impl CleanupTimer {
    /// The timer of a capture that starts at `now`.
    pub fn new(max_age_days: Option<u64>, now_secs: i64, now_nanos: u32) -> (t: Self)
        ensures
            t.max_age_days == max_age_days,
            t.last_secs == now_secs,
            t.last_nanos == now_nanos,
    {
        CleanupTimer { max_age_days, last_secs: now_secs, last_nanos: now_nanos }
    }

    /// The age limit to clean up with, when a cleanup is due at `now`.
    pub fn due(&self, now_secs: i64, now_nanos: u32) -> (r: Option<u64>)
        ensures
            r == if cleanup_due(*self, now_secs, now_nanos) {
                self.max_age_days
            } else {
                None
            },
    {
        match self.max_age_days {
            Some(days) => {
                let next: i128 = (self.last_secs as i128) + (SECS_PER_DAY as i128);
                let now: i128 = now_secs as i128;
                if next < now || (next == now && self.last_nanos <= now_nanos) {
                    Some(days)
                } else {
                    None
                }
            },
            None => None,
        }
    }

    /// Records that a cleanup finished at `now`.
    pub fn mark_done(&mut self, now_secs: i64, now_nanos: u32)
        ensures
            final(self).max_age_days == old(self).max_age_days,
            final(self).last_secs == now_secs,
            final(self).last_nanos == now_nanos,
    {
        self.last_secs = now_secs;
        self.last_nanos = now_nanos;
    }
}

/// Law: cleanups run at most once a day. After the cleanup recorded in `t`,
/// none is due at any instant less than a day later; from a day later on, one
/// is due exactly when cleanup is enabled.
pub proof fn lemma_cleanup_daily(t: CleanupTimer, later_secs: i64, later_nanos: u32)
    ensures
        !instant_le(t.last_secs + SECS_PER_DAY, t.last_nanos as int, later_secs as int, later_nanos as int)
            ==> !cleanup_due(t, later_secs, later_nanos),
        instant_le(t.last_secs + SECS_PER_DAY, t.last_nanos as int, later_secs as int, later_nanos as int)
            ==> (cleanup_due(t, later_secs, later_nanos) <==> t.max_age_days is Some),
{
}

} // verus!
