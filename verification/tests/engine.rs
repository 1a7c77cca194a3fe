//! Parser and materializer behaviour, and the generation-key versioning
//! rule, exercised on concrete values.

use mdj_core::course::Course;
use mdj_core::course::{insert_events, mark, upcoming};
use mdj_core::day::Day;
use mdj_core::model::NewEvent;

fn d(year: i32, month: u32, day: u32) -> Day {
    Day::from_ymd(year, month, day).unwrap()
}

// ----- parser -----

#[test]
fn parse_ascending_ints() {
    assert_eq!(NewEvent::parse_recurrence("0,1,3,7,14"), vec![0, 1, 3, 7, 14]);
}

#[test]
fn parse_single_value() {
    assert_eq!(NewEvent::parse_recurrence("42"), vec![42]);
}

#[test]
fn parse_descending_pair_falls_back() {
    assert_eq!(NewEvent::parse_recurrence("5,3"), vec![0]);
}

#[test]
fn parse_equal_pair_falls_back() {
    assert_eq!(NewEvent::parse_recurrence("1,1"), vec![0]);
}

#[test]
fn parse_non_integer_falls_back() {
    assert_eq!(NewEvent::parse_recurrence("abc"), vec![0]);
    assert_eq!(NewEvent::parse_recurrence("1,2,x"), vec![0]);
    assert_eq!(NewEvent::parse_recurrence(" 1"), vec![0]);
    assert_eq!(NewEvent::parse_recurrence("1,-2"), vec![0]);
}

#[test]
fn parse_empty_falls_back() {
    assert_eq!(NewEvent::parse_recurrence(""), vec![0]);
}

#[test]
fn parse_trailing_comma_falls_back() {
    assert_eq!(NewEvent::parse_recurrence("1,2,"), vec![0]);
}

#[test]
fn parse_plus_sign_accepted() {
    assert_eq!(NewEvent::parse_recurrence("+5,+7"), vec![5, 7]);
}

#[test]
fn parse_leading_zeros() {
    assert_eq!(NewEvent::parse_recurrence("007"), vec![7]);
}

#[test]
fn parse_u32_bounds() {
    assert_eq!(NewEvent::parse_recurrence("4294967295"), vec![4294967295]);
    assert_eq!(NewEvent::parse_recurrence("4294967296"), vec![0]);
}

// ----- materializer -----

#[test]
fn materialize_scenario() {
    let offsets = NewEvent::parse_recurrence("0,1,3,7,14");
    let events = NewEvent::from_offsets(&offsets, 9, 4, d(2024, 1, 1), d(2024, 1, 10), 77);
    assert_eq!(events.len(), 4);
    let expected = [
        (d(2024, 1, 1), 0),
        (d(2024, 1, 2), 1),
        (d(2024, 1, 4), 3),
        (d(2024, 1, 8), 7),
    ];
    for (event, (date, j)) in events.iter().zip(expected.iter()) {
        assert_eq!(event.date, *date);
        assert_eq!(event.j, *j);
        assert_eq!(event.owner, 9);
        assert_eq!(event.course, 4);
        assert_eq!(event.cache_key, 77);
        assert!(event.marking.is_none());
    }
}

#[test]
fn materialize_single_zero_offset() {
    let j_0 = d(2021, 6, 15);
    let events = NewEvent::from_offsets(&vec![0], 1, 2, j_0, j_0, 3);
    assert_eq!(events.len(), 1);
    assert_eq!(events[0].date, j_0);
    assert_eq!(events[0].j, 0);
}

#[test]
fn materialize_empty_when_first_offset_past_span() {
    let events = NewEvent::from_offsets(&vec![5, 6], 1, 2, d(2024, 1, 1), d(2024, 1, 3), 3);
    assert!(events.is_empty());
}

#[test]
fn materialize_empty_on_inverted_span() {
    let events = NewEvent::from_offsets(&vec![0, 1], 1, 2, d(2024, 1, 10), d(2024, 1, 1), 3);
    assert!(events.is_empty());
}

#[test]
fn materialize_never_past_span_end() {
    let j_end = d(2024, 2, 1);
    let events =
        NewEvent::from_offsets(&vec![0, 10, 20, 30, 40, 50], 1, 2, d(2024, 1, 1), j_end, 3);
    for event in &events {
        assert!(event.date.num <= j_end.num);
    }
}

#[test]
fn materialize_is_exact_prefix() {
    let offsets = vec![0, 5, 10];
    let events = NewEvent::from_offsets(&offsets, 1, 2, d(2024, 3, 1), d(2024, 3, 8), 3);
    let in_span = offsets
        .iter()
        .filter(|&&o| d(2024, 3, 1).num + o as i64 <= d(2024, 3, 8).num)
        .count();
    assert_eq!(events.len(), in_span);
    assert_eq!(events.len(), 2);
    for (i, event) in events.iter().enumerate() {
        assert_eq!(event.j, offsets[i] as i64);
    }
}

#[test]
fn rematerialize_differs_only_in_key() {
    let offsets = vec![0, 2, 4];
    let a = NewEvent::from_offsets(&offsets, 1, 2, d(2024, 1, 1), d(2024, 1, 5), 111);
    let b = NewEvent::from_offsets(&offsets, 1, 2, d(2024, 1, 1), d(2024, 1, 5), 222);
    assert_eq!(a.len(), b.len());
    for (x, y) in a.iter().zip(b.iter()) {
        assert_eq!(x.j, y.j);
        assert_eq!(x.date, y.date);
        assert_eq!(x.marking, y.marking);
        assert_eq!(x.cache_key, 111);
        assert_eq!(y.cache_key, 222);
    }
}

// ----- course lifecycle and versioning -----

#[test]
fn create_course_normalizes_description() {
    let (course, events) = Course::create(
        7,
        40,
        "maths".to_string(),
        "".to_string(),
        d(2024, 1, 1),
        d(2024, 1, 5),
        "0,1".to_string(),
        500,
    );
    assert_eq!(course.id, 40);
    assert_eq!(course.author, 7);
    assert_eq!(course.name, "maths");
    assert!(course.description.is_none());
    assert_eq!(course.recurrence, "0,1");
    assert_eq!(course.cache_key, 500);
    assert!(!course.archived);
    assert_eq!(events.len(), 2);

    let (course, _) = Course::create(
        7,
        41,
        "physics".to_string(),
        "waves".to_string(),
        d(2024, 1, 1),
        d(2024, 1, 5),
        "0".to_string(),
        501,
    );
    assert_eq!(course.description.as_deref(), Some("waves"));
}

#[test]
fn schedule_edit_supersedes_marked_events() {
    // a course with two events under the first generation key
    let (mut course, batch) = Course::create(
        7,
        40,
        "maths".to_string(),
        "".to_string(),
        d(2024, 1, 1),
        d(2024, 1, 10),
        "0,1".to_string(),
        1001,
    );
    let rows = insert_events(Vec::new(), batch);
    // the user marks the first occurrence as done
    let rows = mark(rows, 7, 40, 0, "done".to_string());
    assert_eq!(rows[0].marking.as_deref(), Some("done"));

    // the schedule edit mints a fresh key and a disjoint fresh batch
    let fresh = course.edit_schedule("0,2".to_string(), d(2024, 1, 1), d(2024, 1, 10), 2002);
    assert_eq!(course.cache_key, 2002);
    assert_eq!(course.recurrence, "0,2");
    let rows = insert_events(rows, fresh);
    assert_eq!(rows.len(), 4);

    // the current-schedule read returns only rows of the new generation,
    // none carrying the old marking
    let current = course.current_schedule(rows.clone());
    assert_eq!(current.len(), 2);
    for event in &current {
        assert_eq!(event.cache_key, Some(2002));
        assert!(event.marking.is_none());
    }
    assert_eq!(current[0].j, 0);
    assert_eq!(current[1].j, 2);

    // the superseded rows are retained, marking and all
    assert_eq!(rows[0].cache_key, Some(1001));
    assert_eq!(rows[0].marking.as_deref(), Some("done"));
}

#[test]
fn edit_with_minted_key_stamps_course_and_events() {
    let (mut course, _) = Course::create(
        1,
        2,
        "latin".to_string(),
        "".to_string(),
        d(2024, 1, 1),
        d(2024, 1, 4),
        "0".to_string(),
        10,
    );
    let (key_a, batch_a) =
        course.edit_schedule_with_new_key("0,1".to_string(), d(2024, 1, 1), d(2024, 1, 4));
    assert_eq!(course.cache_key, key_a);
    assert_eq!(batch_a.len(), 2);
    for event in &batch_a {
        assert_eq!(event.cache_key, key_a);
    }
    let (key_b, _) =
        course.edit_schedule_with_new_key("0,1".to_string(), d(2024, 1, 1), d(2024, 1, 4));
    assert_ne!(key_a, key_b);
    assert_eq!(course.cache_key, key_b);
}

#[test]
fn mark_targets_every_generation_of_the_index() {
    let make = |j: i64, key: u128| mdj_core::course::Event {
        owner: 7,
        course: 40,
        j,
        marking: None,
        date: d(2024, 1, 1),
        cache_key: Some(key),
    };
    let rows = vec![make(0, 1), make(1, 1), make(0, 2), make(0, 2)];
    let rows = mark(rows, 7, 40, 0, "started".to_string());
    assert_eq!(rows[0].marking.as_deref(), Some("started"));
    assert_eq!(rows[1].marking, None);
    assert_eq!(rows[2].marking.as_deref(), Some("started"));
    assert_eq!(rows[3].marking.as_deref(), Some("started"));
    // an empty marking clears it again
    let rows = mark(rows, 7, 40, 0, "".to_string());
    assert_eq!(rows[0].marking, None);
    assert_eq!(rows[2].marking, None);
    // another owner's write touches nothing
    let rows = mark(rows, 8, 40, 1, "done".to_string());
    assert_eq!(rows[1].marking, None);
}

#[test]
fn upcoming_filters_owner_and_date_and_limits() {
    let make = |owner: u128, date: Day| mdj_core::course::Event {
        owner,
        course: 1,
        j: 0,
        marking: None,
        date,
        cache_key: None,
    };
    let rows = vec![
        make(7, d(2024, 1, 1)),
        make(7, d(2024, 1, 5)),
        make(8, d(2024, 1, 6)),
        make(7, d(2024, 1, 7)),
    ];
    let slice = upcoming(rows.clone(), 7, d(2024, 1, 2), 50);
    assert_eq!(slice.len(), 2);
    assert_eq!(slice[0].date, d(2024, 1, 5));
    assert_eq!(slice[1].date, d(2024, 1, 7));
    let capped = upcoming(rows, 7, d(2024, 1, 2), 1);
    assert_eq!(capped.len(), 1);
    assert_eq!(capped[0].date, d(2024, 1, 5));
}

#[test]
fn update_details_and_archive() {
    let (mut course, _) = Course::create(
        1,
        2,
        "old".to_string(),
        "d".to_string(),
        d(2024, 1, 1),
        d(2024, 1, 4),
        "0".to_string(),
        10,
    );
    course.update_details(Some("new".to_string()), None);
    assert_eq!(course.name, "new");
    assert_eq!(course.description.as_deref(), Some("d"));
    course.update_details(None, Some("".to_string()));
    assert!(course.description.is_none());
    assert_eq!(course.cache_key, 10);
    course.set_archived(true);
    assert!(course.archived);
    assert_eq!(course.name, "new");
}

#[test]
fn course_and_occurrences_from_parts() {
    let (course, batch) = Course::create(
        1,
        2,
        "c".to_string(),
        "".to_string(),
        d(2024, 1, 1),
        d(2024, 1, 3),
        "0,1".to_string(),
        10,
    );
    let occurrences = mdj_core::course::occurrences_of(&batch);
    assert_eq!(occurrences.len(), 2);
    assert_eq!(occurrences[0], (d(2024, 1, 1), 0, None));
    assert_eq!(occurrences[1], (d(2024, 1, 2), 1, None));
    let listing = mdj_core::course::CourseAndOccurrences::from((course, occurrences));
    assert_eq!(listing.id, 2);
    assert_eq!(listing.author, 1);
    assert_eq!(listing.cache_key, 10);
    assert_eq!(listing.occurrences.len(), 2);
}
