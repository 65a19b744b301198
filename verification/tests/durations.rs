use std::collections::HashMap;
use timecalc::aggregate::any_timepoint_is_now;
use timecalc::report::is_off_time;
use timecalc::{
    calculate_durations, calculate_durations_at, format_durations, Durations, TimeError, WallClock,
};

fn args(tokens: &[&str]) -> Vec<String> {
    tokens.iter().map(|t| t.to_string()).collect()
}

fn as_hours(durations: &Durations) -> HashMap<String, f32> {
    let mut map = HashMap::new();
    for i in 0..durations.len() {
        let (label, seconds) = durations.entry(i).unwrap();
        assert!(map.insert(label, seconds as f32 / 3600.0).is_none());
    }
    map
}

fn entries(durations: &Durations) -> Vec<(String, u32)> {
    (0..durations.len()).map(|i| durations.entry(i).unwrap()).collect()
}

fn pairs(expected: &[(&str, u32)]) -> Vec<(String, u32)> {
    expected.iter().map(|(l, s)| (l.to_string(), *s)).collect()
}

#[test]
#[should_panic]
fn too_few_args() {
    calculate_durations(&[]).unwrap();
}

#[test]
#[should_panic]
fn odd_number_args() {
    calculate_durations(&vec![
        String::from("1pm"),
        String::from("work"),
        String::from("2pm"),
        String::from("gym"),
    ])
    .unwrap();
}

#[test]
fn minutes_are_fractions_of_an_hour() {
    let durations = calculate_durations(&args(&[
        "8:30am", "work", "12pm", "lunch", "12:45pm", "work", "5:15pm",
    ]))
    .unwrap();
    assert_eq!(
        as_hours(&durations),
        HashMap::<String, f32>::from([
            (String::from("work"), 8.0),
            (String::from("lunch"), 0.75)
        ])
    );
}

#[test]
fn wrong_counts_are_refused() {
    for count in [0usize, 1, 2, 4, 6, 8] {
        let tokens: Vec<String> = (0..count)
            .map(|i| if i % 2 == 0 { "9am".to_string() } else { "work".to_string() })
            .collect();
        match calculate_durations(&tokens) {
            Err(TimeError::InvalidArgumentCount(n)) => assert_eq!(n, count),
            other => panic!("{count} tokens gave {other:?}"),
        }
    }
}

#[test]
fn count_is_judged_before_the_tokens() {
    let result = calculate_durations(&args(&["bad", "work", "5pm", "rest"]));
    assert_eq!(result.unwrap_err(), TimeError::InvalidArgumentCount(4));
    let result = calculate_durations(&args(&["5pm", "work"]));
    assert_eq!(result.unwrap_err(), TimeError::InvalidArgumentCount(2));
}

#[test]
fn single_span() {
    let durations = calculate_durations(&args(&["9am", "work", "5pm"])).unwrap();
    assert_eq!(entries(&durations), pairs(&[("work", 28_800)]));
    assert_eq!(durations.get("work"), Some(28_800));
    assert_eq!(durations.get("Work"), None);
    assert_eq!(durations.len(), 1);
    assert!(!durations.is_empty());
}

#[test]
fn repeated_labels_add_up() {
    let durations = calculate_durations(&args(&[
        "8am", "work", "12pm", "lunch", "1pm", "work", "5pm",
    ]))
    .unwrap();
    assert_eq!(entries(&durations), pairs(&[("work", 28_800), ("lunch", 3_600)]));
    let durations = calculate_durations(&args(&[
        "9am", "a", "9:10am", "b", "9:30am", "a", "10am", "b", "10:45am", "a", "11am",
    ]))
    .unwrap();
    assert_eq!(durations.get("a"), Some((10 + 30 + 15) * 60));
    assert_eq!(durations.get("b"), Some((20 + 45) * 60));
}

#[test]
fn off_time_is_an_entry_like_any_other() {
    let durations = calculate_durations(&args(&[
        "8am", "work", "12pm", "-", "1pm", "work", "5pm",
    ]))
    .unwrap();
    assert_eq!(entries(&durations), pairs(&[("work", 28_800), ("-", 3_600)]));
}

#[test]
fn labels_are_case_sensitive_and_arbitrary() {
    let durations = calculate_durations(&args(&[
        "1pm", "Work", "2pm", "work", "4pm", "", "5pm", "9am", "6pm", "déjeuner", "7pm",
    ]))
    .unwrap();
    assert_eq!(
        entries(&durations),
        pairs(&[("Work", 3_600), ("work", 7_200), ("", 3_600), ("9am", 3_600), ("déjeuner", 3_600)])
    );
}

#[test]
fn span_of_no_length_is_credited() {
    let durations = calculate_durations(&args(&["12pm", "idle", "12pm"])).unwrap();
    assert_eq!(entries(&durations), pairs(&[("idle", 0)]));
    let durations =
        calculate_durations(&args(&["12pm", "idle", "12pm", "work", "1pm", "idle", "1:00pm"]))
            .unwrap();
    assert_eq!(entries(&durations), pairs(&[("idle", 0), ("work", 3_600)]));
}

#[test]
fn decreasing_pair_is_refused() {
    let result = calculate_durations(&args(&["5pm", "work", "9am"]));
    assert_eq!(
        result.unwrap_err(),
        TimeError::NegativeDuration { start: 61_200, end: 32_400 }
    );
    let result = calculate_durations(&args(&["9am", "work", "5pm", "sleep", "4:59pm"]));
    assert_eq!(
        result.unwrap_err(),
        TimeError::NegativeDuration { start: 61_200, end: 61_140 }
    );
    let result = calculate_durations(&args(&["11pm", "sleep", "12am"]));
    assert_eq!(result.unwrap_err(), TimeError::NegativeDuration { start: 82_800, end: 0 });
}

#[test]
fn first_failing_span_decides() {
    let result = calculate_durations(&args(&["nine", "work", "5pm"]));
    assert_eq!(result.unwrap_err(), TimeError::Parse("nine".to_string()));
    let result = calculate_durations(&args(&["9am", "work", "five"]));
    assert_eq!(result.unwrap_err(), TimeError::Parse("five".to_string()));
    let result = calculate_durations(&args(&["nine", "work", "five"]));
    assert_eq!(result.unwrap_err(), TimeError::Parse("nine".to_string()));
    let result = calculate_durations(&args(&["5pm", "work", "9am", "rest", "ten"]));
    assert_eq!(
        result.unwrap_err(),
        TimeError::NegativeDuration { start: 61_200, end: 32_400 }
    );
    let result = calculate_durations(&args(&["9am", "work", "ten", "rest", "8am"]));
    assert_eq!(result.unwrap_err(), TimeError::Parse("ten".to_string()));
    let result = calculate_durations(&args(&["9am", "work", "10am", "rest", "0am"]));
    assert_eq!(result.unwrap_err(), TimeError::Parse("0am".to_string()));
}

#[test]
fn labels_are_never_read_as_times() {
    let durations = calculate_durations(&args(&["9am", "now", "10am", "0am", "11am"])).unwrap();
    assert_eq!(entries(&durations), pairs(&[("now", 3_600), ("0am", 3_600)]));
}

#[test]
fn now_is_one_reading_for_the_whole_calculation() {
    let clock = WallClock::new(14, 30, 30).unwrap();
    let durations =
        calculate_durations_at(&args(&["9am", "work", "now", "rest", "now"]), &clock).unwrap();
    assert_eq!(entries(&durations), pairs(&[("work", 19_830), ("rest", 0)]));
    let result = calculate_durations_at(&args(&["now", "work", "9am"]), &clock);
    assert_eq!(
        result.unwrap_err(),
        TimeError::NegativeDuration { start: 52_230, end: 32_400 }
    );
}

#[test]
fn clock_does_not_matter_without_now() {
    let tokens = args(&["8am", "work", "12pm", "-", "1pm", "work", "5pm"]);
    let early = calculate_durations_at(&tokens, &WallClock::new(0, 0, 0).unwrap()).unwrap();
    let late = calculate_durations_at(&tokens, &WallClock::new(23, 59, 59).unwrap()).unwrap();
    let live = calculate_durations(&tokens).unwrap();
    assert_eq!(entries(&early), entries(&late));
    assert_eq!(entries(&early), entries(&live));
}

#[test]
fn live_now_is_within_the_day() {
    let durations = calculate_durations(&args(&["12am", "today", "now"])).unwrap();
    assert!(durations.get("today").unwrap() < 86_400);
    let durations = calculate_durations(&args(&["now", "pause", "now"])).unwrap();
    assert_eq!(durations.get("pause"), Some(0));
}

#[test]
fn totals_stay_within_the_span_of_the_day() {
    let tokens = args(&["12am", "a", "6am", "b", "12pm", "a", "6pm", "b", "11:59pm"]);
    let durations = calculate_durations(&tokens).unwrap();
    let sum: u32 = entries(&durations).iter().map(|(_, s)| *s).sum();
    assert_eq!(sum, 86_340);
}

#[test]
fn now_is_looked_for_among_the_timepoints_only() {
    assert!(any_timepoint_is_now(&args(&["now", "work", "5pm"])));
    assert!(any_timepoint_is_now(&args(&["9am", "work", "now"])));
    assert!(any_timepoint_is_now(&args(&["9am", "work", "10am", "rest", "now", "x"])));
    assert!(any_timepoint_is_now(&args(&["now"])));
    assert!(!any_timepoint_is_now(&args(&["9am", "now", "5pm"])));
    assert!(!any_timepoint_is_now(&args(&["9am", "now"])));
    assert!(!any_timepoint_is_now(&args(&[])));
}

#[test]
fn off_time_is_the_single_dash() {
    assert!(is_off_time("-"));
    for label in ["", "--", " -", "- ", "–", "off"] {
        assert!(!is_off_time(label), "{label:?}");
    }
}

#[test]
fn messages_name_the_fault() {
    assert_eq!(TimeError::Suffix.message(), "Found no am/pm suffix");
    assert_eq!(TimeError::Parse("9 am".to_string()).message(), "Failed to parse \"9 am\"");
    assert_eq!(TimeError::Parse(String::new()).message(), "Failed to parse \"\"");
    assert_eq!(
        TimeError::InvalidArgumentCount(0).message(),
        "Must provide at least 3 arguments"
    );
    assert_eq!(
        TimeError::InvalidArgumentCount(2).message(),
        "Must provide at least 3 arguments"
    );
    assert_eq!(
        TimeError::InvalidArgumentCount(4).message(),
        "Must provide odd number of arguments"
    );
    assert_eq!(
        TimeError::NegativeDuration { start: 61_200, end: 32_400 }.message(),
        "Duration of -8.0 hours must be non-negative"
    );
    assert_eq!(
        TimeError::NegativeDuration { start: 3_600, end: 1_800 }.message(),
        "Duration of -0.5 hours must be non-negative"
    );
    assert_eq!(TimeError::EmptyInput.message(), "Found no durations");
}

#[test]
fn failed_calculations_carry_their_message() {
    let error = calculate_durations(&args(&["5pm", "work", "9am"])).unwrap_err();
    assert_eq!(error.message(), "Duration of -8.0 hours must be non-negative");
    let error = calculate_durations(&args(&["9am", "work", "17:00"])).unwrap_err();
    assert_eq!(error.message(), "Failed to parse \"17:00\"");
    let error = calculate_durations(&args(&["9am", "work"])).unwrap_err();
    assert_eq!(error.message(), "Must provide at least 3 arguments");
}

#[test]
fn recording_by_hand() {
    let mut durations = Durations::new();
    assert!(durations.is_empty());
    assert_eq!(durations.len(), 0);
    assert_eq!(durations.get("work"), None);
    assert_eq!(durations.entry(0), None);
    durations.record("work", 10);
    durations.record("rest", 5);
    durations.record("work", 7);
    durations.record("rest", 0);
    assert_eq!(entries(&durations), pairs(&[("work", 17), ("rest", 5)]));
    assert_eq!(durations.label_at(1), "rest");
    assert_eq!(durations.seconds_at(0), 17);
    assert_eq!(durations.entry(2), None);
}

#[test]
fn report_of_one_activity() {
    let durations = calculate_durations(&args(&["9am", "work", "5pm"])).unwrap();
    assert_eq!(format_durations(&durations).unwrap(), "work  8.0 hours\n\nTotal: 8.0 hours\n");
}

#[test]
fn report_pads_labels_to_the_longest() {
    let durations = calculate_durations(&args(&[
        "8am", "work", "12pm", "lunch", "1pm", "work", "5pm",
    ]))
    .unwrap();
    assert_eq!(
        format_durations(&durations).unwrap(),
        "work   8.0 hours\nlunch  1.0 hours\n\nTotal: 9.0 hours\n"
    );
}

#[test]
fn report_sets_off_time_apart() {
    let durations = calculate_durations(&args(&[
        "8am", "work", "12pm", "-", "1pm", "work", "5pm",
    ]))
    .unwrap();
    assert_eq!(
        format_durations(&durations).unwrap(),
        "work  8.0 hours\n\nTotal: 8.0 hours (1.0 hours off)\n"
    );
}

#[test]
fn report_keeps_silent_about_no_off_time() {
    let durations = calculate_durations(&args(&["8am", "-", "8am", "work", "9:30am"])).unwrap();
    assert_eq!(format_durations(&durations).unwrap(), "work  1.5 hours\n\nTotal: 1.5 hours\n");
}

#[test]
fn report_of_off_time_alone() {
    let durations = calculate_durations(&args(&["8am", "-", "9am"])).unwrap();
    assert_eq!(format_durations(&durations).unwrap(), "\nTotal: 0.0 hours (1.0 hours off)\n");
}

#[test]
fn report_of_nothing_is_refused() {
    assert_eq!(format_durations(&Durations::new()), Err(TimeError::EmptyInput));
}

#[test]
fn off_time_label_does_not_widen_the_column() {
    let mut durations = Durations::new();
    durations.record("-", 3_600);
    durations.record("", 3_600);
    assert_eq!(format_durations(&durations).unwrap(), "  1.0 hours\n\nTotal: 1.0 hours (1.0 hours off)\n");
}

#[test]
fn column_width_counts_characters() {
    let mut durations = Durations::new();
    durations.record("café", 3_600);
    durations.record("tea", 7_200);
    durations.record("--", 360);
    assert_eq!(
        format_durations(&durations).unwrap(),
        "café  1.0 hours\ntea   2.0 hours\n--    0.1 hours\n\nTotal: 3.1 hours\n"
    );
}

fn shown(seconds: u32) -> String {
    let mut durations = Durations::new();
    durations.record("x", seconds);
    let text = format_durations(&durations).unwrap();
    let line = text.lines().next().unwrap();
    line.strip_prefix("x  ").unwrap().strip_suffix(" hours").unwrap().to_string()
}

#[test]
fn hours_are_rounded_to_one_decimal_place() {
    assert_eq!(shown(0), "0.0");
    assert_eq!(shown(179), "0.0");
    assert_eq!(shown(180), "0.0");
    assert_eq!(shown(181), "0.1");
    assert_eq!(shown(360), "0.1");
    assert_eq!(shown(540), "0.2");
    assert_eq!(shown(900), "0.2");
    assert_eq!(shown(901), "0.3");
    assert_eq!(shown(2_700), "0.8");
    assert_eq!(shown(3_420), "1.0");
    assert_eq!(shown(3_600), "1.0");
    assert_eq!(shown(5_400), "1.5");
    assert_eq!(shown(35_820), "10.0");
    assert_eq!(shown(45_000), "12.5");
    assert_eq!(shown(86_399), "24.0");
    assert_eq!(shown(360_000), "100.0");
    assert_eq!(shown(u32::MAX), "1193046.5");
}

#[test]
fn exact_ties_agree_with_float_formatting() {
    for quarter_hours in 0u32..96 {
        let seconds = quarter_hours * 900;
        assert_eq!(shown(seconds), format!("{:.1}", seconds as f64 / 3600.0));
    }
}

#[test]
fn total_adds_up_beyond_one_word() {
    let mut durations = Durations::new();
    durations.record("a", u32::MAX);
    durations.record("b", u32::MAX);
    durations.record("-", u32::MAX);
    let text = format_durations(&durations).unwrap();
    assert_eq!(
        text,
        "a  1193046.5 hours\nb  1193046.5 hours\n\nTotal: 2386092.9 hours (1193046.5 hours off)\n"
    );
}
