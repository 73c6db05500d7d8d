//! Choosing a run: relative to the clock, so that a saved choice never goes
//! stale, or at a fixed instant where somebody wrote one down.
use vstd::prelude::*;
use crate::instant::{
    calendar_reading,
    calendar_text,
    format_calendar,
    parse_calendar,
    Instant,
    FIRST_SECOND,
    HOUR,
    LAST_SECOND,
};
use crate::model::axis::{forecast_horizon, horizon};
use crate::text::{
    after_prefix,
    byte_number,
    decimal,
    decimal_text,
    is_digit,
    law_numbers_read_back,
    parse_byte,
    strip,
    two_place_text,
    two_places,
};

verus! {

/// How many past runs the run control lists, newest first. Twelve span two
/// six-hourly cycles, so a run with the long horizon can always be reached.
pub const RUN_CHOICES: u8 = 12;

/// The furthest back a run can be spelled at all, in hours before the latest
/// run.
pub const MAX_RUN_OFFSET: u8 = 48;

/// Unix seconds of the earliest clock on which every run that can be spelled is
/// on the calendar: two hours for a run to be published, and the furthest offset.
pub const EARLIEST_CLOCK: i64 = -8_334_601_048_800;

/// The latest run a clock could name: a run is published two hours after the
/// hour it is of. Counting back out of a leap second, that second counts.
pub open spec fn latest_run(now: Instant) -> Instant {
    if now.nanos >= 1_000_000_000 {
        now.shifted(1 - 2 * HOUR).hour_start()
    } else {
        now.shifted(-2 * HOUR).hour_start()
    }
}

pub fn latest_run_at(now: Instant) -> (run: Instant)
    requires
        now.secs >= FIRST_SECOND + 2 * HOUR,
    ensures
        run == latest_run(now),
        run.nanos == 0,
        run.secs % HOUR == 0,
        now.secs - 3 * HOUR < run.secs <= now.secs - 2 * HOUR + 1,
{
    let back = now.minus_hours(2);
    if now.nanos >= 1_000_000_000 {
        return Instant { secs: back.secs + 1, nanos: now.nanos }.on_the_hour();
    }
    back.on_the_hour()
}

/// The value of a forecast hour in its control.
pub open spec fn hour_token(f_hour: u8) -> Seq<char> {
    seq!['f'] + two_places(f_hour as nat)
}

pub fn f_hour_token(f_hour: u8) -> (text: String)
    ensures
        text@ == hour_token(f_hour),
{
    proof {
        reveal_strlit("f");
    }
    let mut text = "f".to_owned();
    text.append(two_place_text(f_hour as u64).as_str());
    assert(text@ =~= hour_token(f_hour));
    text
}

/// The forecast hour a control's value names.
pub open spec fn hour_of_token(text: Seq<char>) -> Option<u8> {
    match after_prefix(text, seq!['f']) {
        Some(rest) => byte_number(rest),
        None => None,
    }
}

pub fn parse_f_hour(text: &str) -> (f_hour: Option<u8>)
    ensures
        f_hour == hour_of_token(text@),
{
    proof {
        reveal_strlit("f");
        assert("f"@ =~= seq!['f']);
    }
    match strip(text, "f") {
        Some(rest) => parse_byte(rest),
        None => None,
    }
}

/// A forecast hour reads back from its control's value.
pub proof fn law_forecast_hours_read_back(f_hour: u8)
    ensures
        hour_of_token(hour_token(f_hour)) == Some(f_hour),
{
    let token = hour_token(f_hour);
    assert(token.take(1) =~= seq!['f']);
    assert(token.skip(1) =~= two_places(f_hour as nat));
    law_numbers_read_back(f_hour);
}

/// The value of a run in its control: how many hours before the latest it is.
pub open spec fn back_token(back: u8) -> Seq<char> {
    if back == 0 {
        "latest"@
    } else {
        "latest"@ + "-"@ + decimal(back as nat)
    }
}

pub fn run_token(back: u8) -> (text: String)
    ensures
        text@ == back_token(back),
{
    let mut text = "latest".to_owned();
    if back > 0 {
        text.append("-");
        text.append(decimal_text(back as u64).as_str());
    }
    text
}

/// How many hours before the latest run a run is, where the vocabulary reaches
/// that far. A run ahead of the latest is not spelled.
pub open spec fn spelled_back(run: Instant, now: Instant) -> Option<u8> {
    let back = latest_run(now).hours_since(run);
    if 0 <= back <= MAX_RUN_OFFSET {
        Some(back as u8)
    } else {
        None
    }
}

pub fn hours_back(run: Instant, now: Instant) -> (back: Option<u8>)
    requires
        run.steady(),
        FIRST_SECOND + 2 * HOUR <= now.secs <= LAST_SECOND,
    ensures
        back == spelled_back(run, now),
        back matches Some(b) ==> b <= MAX_RUN_OFFSET,
{
    match latest_run_at(now).byte_hours_since(&run) {
        Some(back) => if back <= MAX_RUN_OFFSET {
            Some(back)
        } else {
            None
        },
        None => None,
    }
}

/// A run as a relative choice.
pub open spec fn run_choice(run: Instant, now: Instant) -> Option<Seq<char>> {
    match spelled_back(run, now) {
        Some(back) => Some(back_token(back)),
        None => None,
    }
}

pub fn encode_run_choice(run: Instant, now: Instant) -> (text: Option<String>)
    requires
        run.steady(),
        FIRST_SECOND + 2 * HOUR <= now.secs <= LAST_SECOND,
    ensures
        text.deep_view() == run_choice(run, now),
{
    match hours_back(run, now) {
        Some(back) => Some(run_token(back)),
        None => None,
    }
}

/// How far back a relative choice reaches: what follows the stem is nothing, or
/// a dash and a number.
pub open spec fn back_of_rest(rest: Seq<char>) -> Option<u8> {
    if rest.len() == 0 {
        Some(0)
    } else {
        match after_prefix(rest, "-"@) {
            Some(digits) => match byte_number(digits) {
                Some(back) => if back <= MAX_RUN_OFFSET {
                    Some(back)
                } else {
                    None
                },
                None => None,
            },
            None => None,
        }
    }
}

/// The run a choice names on a clock: relative to the clock's latest run, or, in
/// a form that is read and never written, at an instant cut to its hour.
pub open spec fn chosen_run(text: Seq<char>, now: Instant) -> Option<Instant> {
    match after_prefix(text, "latest"@) {
        Some(rest) => match back_of_rest(rest) {
            Some(back) => Some(latest_run(now).hours_on(-back)),
            None => None,
        },
        None => match after_prefix(text, "at:"@) {
            Some(written) => match calendar_reading(written) {
                Some(at) => Some(at.hour_start()),
                None => None,
            },
            None => None,
        },
    }
}

pub fn decode_run_choice(text: &str, now: Instant) -> (run: Option<Instant>)
    requires
        EARLIEST_CLOCK <= now.secs <= LAST_SECOND,
    ensures
        run == chosen_run(text@, now),
        run matches Some(r) ==> r.steady() && r.nanos == 0,
{
    if let Some(rest) = strip(text, "latest") {
        let back: u8 = if rest.unicode_len() == 0 {
            0
        } else {
            let digits = match strip(rest, "-") {
                Some(digits) => digits,
                None => return None,
            };
            match parse_byte(digits) {
                Some(back) => back,
                None => return None,
            }
        };
        if back > MAX_RUN_OFFSET {
            return None;
        }
        return Some(latest_run_at(now).minus_hours(back));
    }
    match strip(text, "at:") {
        Some(written) => match parse_calendar(written) {
            Some(at) => {
                let run = at.on_the_hour();
                assert(FIRST_SECOND % HOUR == 0);
                Some(run)
            },
            None => None,
        },
        None => None,
    }
}

/// A choice this library writes names the run it was written for, on the clock
/// it was written by.
pub proof fn law_run_choice_reads_back(run: Instant, now: Instant)
    requires
        run.nanos == 0,
        run.secs % HOUR == 0,
        EARLIEST_CLOCK <= now.secs <= LAST_SECOND,
        FIRST_SECOND <= run.secs <= LAST_SECOND,
        run_choice(run, now) is Some,
    ensures
        chosen_run(run_choice(run, now)->0, now) == Some(run),
{
    let back = spelled_back(run, now)->0;
    lemma_back_token(back);
    let latest = latest_run(now);
    lemma_whole_hours(latest, run);
}

proof fn lemma_whole_hours(latest: Instant, run: Instant)
    requires
        latest.nanos == 0,
        run.nanos == 0,
        latest.secs % HOUR == 0,
        run.secs % HOUR == 0,
    ensures
        latest.secs - run.secs == latest.hours_since(run) * HOUR,
{
    let hours = latest.secs as int / HOUR as int - run.secs as int / HOUR as int;
    assert(latest.secs - run.secs == hours * HOUR);
    let nanos = (latest.secs - run.secs) * 1_000_000_000;
    assert(nanos == hours * 3_600_000_000_000);
    assert(hours >= 0 ==> hours * 3_600_000_000_000 / 3_600_000_000_000 == hours) by (nonlinear_arith);
    assert(hours < 0 ==> (-(hours * 3_600_000_000_000)) / 3_600_000_000_000 == -hours)
        by (nonlinear_arith);
}

proof fn lemma_back_token(back: u8)
    requires
        back <= MAX_RUN_OFFSET,
    ensures
        after_prefix(back_token(back), "latest"@) is Some,
        back_of_rest(after_prefix(back_token(back), "latest"@)->0) == Some(back),
{
    reveal_strlit("latest");
    reveal_strlit("-");
    let token = back_token(back);
    assert(token.take(6) =~= "latest"@);
    if back == 0 {
        assert(token.skip(6) =~= Seq::<char>::empty());
    } else {
        let rest = token.skip(6);
        assert(rest =~= "-"@ + decimal(back as nat));
        assert(rest.take(1) =~= "-"@);
        assert(rest.skip(1) =~= decimal(back as nat));
        law_numbers_read_back(back);
    }
}

/// A choice this library writes follows the clock: read later, it names a run as
/// far before that clock's latest as it was before the first one's.
pub proof fn law_run_choice_follows_the_clock(run: Instant, now: Instant, later: Instant)
    requires
        run_choice(run, now) is Some,
    ensures
        chosen_run(run_choice(run, now)->0, later) == Some(
            latest_run(later).hours_on(-spelled_back(run, now)->0),
        ),
{
    lemma_back_token(spelled_back(run, now)->0);
}

/// A fixed instant names the same run on every clock.
pub proof fn law_fixed_run_ignores_the_clock(text: Seq<char>, now: Instant, later: Instant)
    requires
        after_prefix(text, "at:"@) is Some,
    ensures
        chosen_run(text, now) == chosen_run(text, later),
{
    reveal_strlit("at:");
    reveal_strlit("latest");
    assert(text.take(3)[0] == 'a');
    assert("latest"@[0] == 'l');
    if after_prefix(text, "latest"@) is Some {
        assert(text.take(6)[0] == 'l');
    }
}

/// A text without either prefix names nothing. An instant written bare is such a
/// text: that is what a stale choice looks like.
pub proof fn law_bare_instant_is_refused(text: Seq<char>, now: Instant)
    ensures
        after_prefix(text, "latest"@) is None && after_prefix(text, "at:"@) is None
            ==> chosen_run(text, now) is None,
        text.len() > 0 && is_digit(text[0]) ==> chosen_run(text, now) is None,
{
    reveal_strlit("at:");
    reveal_strlit("latest");
    assert("at:"@[0] == 'a' && "latest"@[0] == 'l');
    if after_prefix(text, "at:"@) is Some {
        assert(text.take(3)[0] == 'a');
    }
    if after_prefix(text, "latest"@) is Some {
        assert(text.take(6)[0] == 'l');
    }
}

/// How a run reads in its control: its time, with the date where it is not the
/// latest run's, and how far it reaches.
pub open spec fn run_label_view(run: Instant, latest: Instant) -> Seq<char> {
    (if run.on_day_of(latest) {
        run.clock_view()
    } else {
        calendar_text(run.secs, "%m/%d"@) + " "@ + run.clock_view()
    }) + " (f00-f"@ + decimal(horizon(run) as nat) + ")"@
}

pub fn run_label(run: Instant, latest: Instant) -> (text: String)
    requires
        run.steady(),
    ensures
        text@ == run_label_view(run, latest),
{
    let mut text = if run.same_day(&latest) {
        String::new()
    } else {
        match format_calendar(run.secs, "%m/%d") {
            Some(mut date) => {
                date.append(" ");
                date
            },
            None => String::new(),
        }
    };
    text.append(run.clock().as_str());
    text.append(" (f00-f");
    text.append(decimal_text(forecast_horizon(run) as u64).as_str());
    text.append(")");
    assert(text@ =~= run_label_view(run, latest));
    text
}

/// How far back the run control lists: twelve runs, and further where the pane's
/// own run is, so that a pane can always read its selection.
pub open spec fn deepest_view(picked: Option<Instant>, now: Instant) -> u8 {
    match picked {
        Some(run) => match spelled_back(run, now) {
            Some(back) => if back > RUN_CHOICES {
                back
            } else {
                RUN_CHOICES
            },
            None => RUN_CHOICES,
        },
        None => RUN_CHOICES,
    }
}

/// The options of the run control: the latest, and then every run back to the
/// deepest.
pub open spec fn run_options_view(picked: Option<Instant>, now: Instant) -> Seq<
    (Seq<char>, Seq<char>),
> {
    seq![(Seq::<char>::empty(), "Latest"@)] + Seq::new(
        (deepest_view(picked, now) + 1) as nat,
        |back: int|
            (
                back_token(back as u8),
                run_label_view(latest_run(now).hours_on(-back), latest_run(now)),
            ),
    )
}

pub fn run_options(picked: Option<Instant>, now: Instant) -> (options: Vec<(String, String)>)
    requires
        picked matches Some(run) ==> run.steady(),
        EARLIEST_CLOCK <= now.secs <= LAST_SECOND,
    ensures
        options.deep_view() == run_options_view(picked, now),
{
    let latest = latest_run_at(now);
    let mut deepest: u8 = RUN_CHOICES;
    if let Some(run) = picked {
        if let Some(back) = hours_back(run, now) {
            if back > RUN_CHOICES {
                deepest = back;
            }
        }
    }
    let ghost wanted = run_options_view(picked, now);
    let mut options: Vec<(String, String)> = Vec::new();
    options.push((String::new(), "Latest".to_owned()));
    assert(options.deep_view() =~= wanted.take(1));
    let mut back: u8 = 0;
    while back <= deepest
        invariant
            back <= deepest + 1,
            deepest == deepest_view(picked, now),
            deepest <= MAX_RUN_OFFSET,
            EARLIEST_CLOCK <= now.secs <= LAST_SECOND,
            latest == latest_run(now),
            latest.nanos == 0,
            now.secs - 3 * HOUR < latest.secs <= now.secs - 2 * HOUR + 1,
            wanted == run_options_view(picked, now),
            options.deep_view() == wanted.take(back + 1),
        decreases deepest + 1 - back,
    {
        let ghost shorter = options.deep_view();
        let run = latest.minus_hours(back);
        options.push((run_token(back), run_label(run, latest)));
        proof {
            assert(options.deep_view() =~= shorter.push(options@[back + 1].deep_view()));
            assert(options@[back + 1].deep_view() == wanted[back + 1]);
            assert(options.deep_view() =~= wanted.take(back + 2));
        }
        back = back + 1;
    }
    assert(wanted.take(back + 1) =~= wanted);
    options
}

/// The options of the forecast-hour control of a run.
pub open spec fn hour_options_view(floor: u8, run: Instant) -> Seq<(Seq<char>, Seq<char>)> {
    Seq::new(
        (horizon(run) + 1 - floor) as nat,
        |i: int|
            (
                hour_token((floor + i) as u8),
                seq!['F'] + two_places((floor + i) as nat) + " ("@ + run.hours_on(
                    floor + i,
                ).clock_view() + ")"@,
            ),
    )
}

pub fn hour_options(floor: u8, run: Instant) -> (options: Vec<(String, String)>)
    requires
        run.steady(),
        floor <= 18,
    ensures
        options.deep_view() == hour_options_view(floor, run),
{
    proof {
        reveal_strlit("F");
    }
    let last: u8 = forecast_horizon(run);
    let ghost wanted = hour_options_view(floor, run);
    let mut options: Vec<(String, String)> = Vec::new();
    assert(options.deep_view() =~= wanted.take(0));
    let mut f_hour: u8 = floor;
    while f_hour <= last
        invariant
            floor <= f_hour <= last + 1,
            last == horizon(run),
            run.steady(),
            "F"@ == seq!['F'],
            wanted == hour_options_view(floor, run),
            options.deep_view() == wanted.take(f_hour - floor),
        decreases last + 1 - f_hour,
    {
        let ghost shorter = options.deep_view();
        let mut label = "F".to_owned();
        label.append(two_place_text(f_hour as u64).as_str());
        label.append(" (");
        label.append(run.plus_hours(f_hour).clock().as_str());
        label.append(")");
        options.push((f_hour_token(f_hour), label));
        proof {
            let i = f_hour - floor;
            assert(options.deep_view() =~= shorter.push(options@[i].deep_view()));
            assert(options@[i].deep_view() == wanted[i]);
            assert(options.deep_view() =~= wanted.take(i + 1));
        }
        f_hour = f_hour + 1;
    }
    assert(wanted.take(f_hour - floor) =~= wanted);
    options
}

/// A forecast hour held to what a run publishes of a field.
pub open spec fn held_hour(f_hour: u8, floor: u8, run: Instant) -> u8 {
    if f_hour < floor {
        floor
    } else if f_hour > horizon(run) {
        horizon(run)
    } else {
        f_hour
    }
}

pub fn hold_hour(f_hour: u8, floor: u8, run: Instant) -> (held: u8)
    requires
        floor <= 18,
    ensures
        held == held_hour(f_hour, floor, run),
        floor <= held <= horizon(run),
{
    let last: u8 = forecast_horizon(run);
    if f_hour < floor {
        floor
    } else if f_hour > last {
        last
    } else {
        f_hour
    }
}

/// The latest run a clock could name is on the hour, at least two hours old by the
/// clock and less than three.
pub proof fn law_the_latest_run_is_two_hours_old(now: Instant)
    requires
        EARLIEST_CLOCK <= now.secs <= LAST_SECOND,
        now.nanos < 1_000_000_000,
    ensures
        latest_run(now).secs % 3_600 == 0,
        latest_run(now).nanos == 0,
        latest_run(now).secs + 2 * 3_600 <= now.secs < latest_run(now).secs + 3 * 3_600,
{
}

/// Every option of the run control but the first names the run it stands for: as
/// many hours before the latest as options stand between. There are twelve of
/// those behind the latest at least, and the run a pane is parked on is among them
/// wherever it can be spelled.
pub proof fn law_run_options_name_their_runs(picked: Option<Instant>, now: Instant, back: u8)
    requires
        picked matches Some(run) ==> run.steady(),
        EARLIEST_CLOCK <= now.secs <= LAST_SECOND,
        now.nanos < 1_000_000_000,
    ensures
        ({
            let options = run_options_view(picked, now);
            &&& options.len() >= 14
            &&& options[0].0.len() == 0
            &&& chosen_run(options[0].0, now) is None
            &&& back + 1 < options.len() ==> (chosen_run(options[back + 1].0, now) matches Some(run)
                && run.secs == latest_run(now).secs - back * 3_600 && run.nanos == 0)
            &&& picked matches Some(run) ==> (run_choice(run, now) matches Some(choice)
                ==> exists|i: int| 0 < i < options.len() && (#[trigger] options[i]).0 == choice)
        }),
{
    let options = run_options_view(picked, now);
    reveal_strlit("latest");
    reveal_strlit("at:");
    assert("latest"@.len() == 6 && "at:"@.len() == 3);
    if back + 1 < options.len() {
        assert(back <= MAX_RUN_OFFSET);
        lemma_back_token(back);
        assert(options[back + 1].0 == back_token(back));
    }
    if let Some(run) = picked {
        if let Some(own) = spelled_back(run, now) {
            assert(options[own + 1].0 == back_token(own));
        }
    }
}

/// The options of the hour control are the hours a run publishes of a field, each
/// once from the first to the last, and each reads back as its hour. An hour held
/// to them is one of them, and is the hour itself where that is.
pub proof fn law_hour_options_are_the_runs_hours(floor: u8, run: Instant, f_hour: u8)
    requires
        floor <= 18,
    ensures
        hour_options_view(floor, run).len() == horizon(run) + 1 - floor,
        forall|i: int|
            0 <= i < hour_options_view(floor, run).len() ==> hour_of_token(
                (#[trigger] hour_options_view(floor, run)[i]).0,
            ) == Some((floor + i) as u8),
        floor <= held_hour(f_hour, floor, run) <= horizon(run),
        floor <= f_hour <= horizon(run) ==> held_hour(f_hour, floor, run) == f_hour,
        f_hour < floor ==> held_hour(f_hour, floor, run) == floor,
        f_hour > horizon(run) ==> held_hour(f_hour, floor, run) == horizon(run),
{
    assert forall|i: int| 0 <= i < hour_options_view(floor, run).len() implies hour_of_token(
        (#[trigger] hour_options_view(floor, run)[i]).0,
    ) == Some((floor + i) as u8) by {
        law_forecast_hours_read_back((floor + i) as u8);
    }
}

/// A run is labelled by its clock and how far it reaches, and by its date too
/// exactly where it is of another day than the latest.
pub proof fn law_a_run_of_another_day_is_dated(run: Instant, latest: Instant)
    ensures
        ({
            let reach = " (f00-f"@ + decimal(horizon(run) as nat) + ")"@;
            let date = calendar_text(run.secs, "%m/%d"@) + " "@;
            &&& run.secs as int / 86_400 == latest.secs as int / 86_400 ==> run_label_view(run, latest)
                == run.clock_view() + reach
            &&& run.secs as int / 86_400 != latest.secs as int / 86_400 ==> run_label_view(run, latest)
                == date + run.clock_view() + reach
        }),
{
    let reach = " (f00-f"@ + decimal(horizon(run) as nat) + ")"@;
    let date = calendar_text(run.secs, "%m/%d"@) + " "@;
    assert(run_label_view(run, latest) =~= (if run.on_day_of(latest) {
        run.clock_view()
    } else {
        date + run.clock_view()
    }) + reach);
}

} // verus!
