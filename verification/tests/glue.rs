//! Dates, authentication, asset names, and presentation helpers.

use mdj_core::api::{suggested_recurrences, Success};
use mdj_core::asset::AssetName;
use mdj_core::auth::{check_credentials, new_session};
use mdj_core::calendar::color_name_for_mark;
use mdj_core::day::Day;
use mdj_core::model::NewEvent;

// ----- days -----

#[test]
fn day_numbers_count_days() {
    let a = Day::from_ymd(2024, 1, 1).unwrap();
    let b = Day::from_ymd(2024, 1, 2).unwrap();
    let c = Day::from_ymd(2024, 2, 1).unwrap();
    assert_eq!(b.num, a.num + 1);
    assert_eq!(c.num, a.num + 31);
    // the epoch itself
    assert_eq!(Day::from_ymd(1, 1, 1).unwrap().num, 1);
}

#[test]
fn day_rejects_dates_the_calendar_lacks() {
    assert!(Day::from_ymd(2024, 2, 29).is_some());
    assert!(Day::from_ymd(2023, 2, 29).is_none());
    assert!(Day::from_ymd(2024, 13, 1).is_none());
    assert!(Day::from_ymd(2024, 4, 31).is_none());
}

// ----- authentication -----

#[test]
fn credentials_check_against_stored_hash() {
    let hash = bcrypt::hash("s3cret", 4).unwrap();
    assert!(check_credentials("s3cret", &Some(hash.clone())));
    assert!(!check_credentials("wrong", &Some(hash)));
}

#[test]
fn credentials_fail_without_stored_hash() {
    assert!(!check_credentials("anything", &None));
}

#[test]
fn sessions_carry_fresh_tokens() {
    let a = new_session(5);
    let b = new_session(5);
    assert_eq!(a.account, 5);
    assert_eq!(a.token.chars().count(), 64);
    assert_eq!(b.token.chars().count(), 64);
    assert_ne!(a.token, b.token);
    assert!(a.token.chars().all(|c| c.is_ascii_alphanumeric()));
}

// ----- asset names -----

#[test]
fn index_html_is_the_entry_page() {
    assert_eq!(AssetName::index_html().0, "index.html");
}

#[test]
fn asset_names_need_a_bundled_extension() {
    assert_eq!(AssetName::from_param("app.css").unwrap().0, "app.css");
    assert!(AssetName::from_param("main.js").is_ok());
    assert!(AssetName::from_param("main.js.map").is_ok());
    assert!(AssetName::from_param("logo.svg").is_ok());
    assert!(AssetName::from_param("site.webmanifest").is_ok());
    assert!(AssetName::from_param("page.html").is_err());
    assert!(AssetName::from_param("css").is_err());
    assert!(AssetName::from_param("").is_err());
}

// ----- calendar colours -----

#[test]
fn colors_follow_the_marking() {
    assert_eq!(color_name_for_mark(Some("started")), ("yellow", "[Démarré]\n"));
    assert_eq!(
        color_name_for_mark(Some("further_learning_required")),
        ("#ffc000", "[À approfondir]\n")
    );
    assert_eq!(color_name_for_mark(Some("done")), ("#92d050", "[Terminé]\n"));
    assert_eq!(color_name_for_mark(Some("anything else")), ("white", ""));
    assert_eq!(color_name_for_mark(None), ("white", ""));
}

// ----- api bodies -----

#[test]
fn default_response_reports_success() {
    assert!(Success::default().success);
}

#[test]
fn suggested_ladder_is_a_well_formed_pattern() {
    let ladders = suggested_recurrences();
    assert_eq!(ladders.len(), 1);
    assert_eq!(
        ladders[0],
        vec![0, 1, 3, 7, 14, 21, 30, 45, 60, 75, 90, 95, 110]
    );
    // its textual form parses back to itself
    let text = "0,1,3,7,14,21,30,45,60,75,90,95,110";
    assert_eq!(NewEvent::parse_recurrence(text), ladders[0]);
}
