use std::collections::HashSet;

use slackware_advisories::advisor::{Advisor, Date};
use slackware_advisories::parser::{extract_advisories, ExtractError};
use slackware_advisories::novelty::novel;
use slackware_advisories::pipeline::{notification_text, plan_run, RunPlan};

fn sample_date() -> Date {
    Date { year: 2021, month: 6, day: 1 }
}

fn advisor_named(name: &str) -> Advisor {
    Advisor::new(
        None,
        sample_date(),
        name.to_string(),
        "https://test.com".to_string(),
        2021,
    )
}

#[test]
fn test_advisor() {
    let advisor = advisor_named("test");

    let mut set = HashSet::new();
    set.insert(advisor.key().clone());

    assert_eq!(set.len(), 1);
}

#[test]
fn test_advisor_eq() {
    let advisor1 = advisor_named("test");
    let advisor2 = advisor_named("test");

    assert_eq!(advisor1, advisor2);
}

#[test]
fn test_advisor_hash() {
    let advisor1 = advisor_named("test");
    let advisor2 = advisor_named("test");

    let mut set = HashSet::new();
    set.insert(advisor1.key().clone());
    set.insert(advisor2.key().clone());

    assert_eq!(set.len(), 1);
}

#[test]
fn test_advisor_hash_diff() {
    let advisor1 = advisor_named("test");
    let advisor2 = advisor_named("test2");

    let mut set = HashSet::new();
    set.insert(advisor1.key().clone());
    set.insert(advisor2.key().clone());

    assert_eq!(set.len(), 2);
}

#[test]
fn test_advisor_not_eq() {
    let advisor1 = advisor_named("test");
    let advisor2 = advisor_named("Test");

    assert_ne!(advisor1, advisor2);
}

fn advisory_2023(name: &str) -> Advisor {
    Advisor::new(None, Date { year: 2023, month: 1, day: 18 }, name.to_string(), "".to_string(), 2023)
}

#[test]
fn test_compare() {
    let current = vec![
        advisory_2023("sudo (SSA:2023-018-01)"),
        advisory_2023("git (SSA:2023-018-01)"),
    ];
    let latest = vec![
        advisory_2023("sudo (SSA:2023-018-01)"),
        advisory_2023("git (SSA:2023-018-01)"),
        advisory_2023("xss (SSA:2023-018-01)"),
        advisory_2023("ssl (SSA:2023-018-01)"),
    ];

    let fresh = novel(&latest, &current);

    assert!(fresh.len() == 2);
    assert_eq!(fresh[0].package_name, "xss (SSA:2023-018-01)");
    assert_eq!(fresh[1].package_name, "ssl (SSA:2023-018-01)");
}

const TWO_BLOCK_PAGE: &str = "2023-01-18 - <A HREF=\"viewer.php?y=2023&a=0118-01\">sudo (SSA:2023-018-01)</A>\n2023-01-18 - <A HREF=\"viewer.php?y=2023&a=0118-02\">git (SSA:2023-018-01)</A>\n";

#[test]
fn extracts_two_blocks_in_document_order() {
    let advisories = extract_advisories(TWO_BLOCK_PAGE, 2023).unwrap();

    assert_eq!(advisories.len(), 2);
    assert_eq!(advisories[0].package_name, "sudo (SSA:2023-018-01)");
    assert_eq!(advisories[1].package_name, "git (SSA:2023-018-01)");
    assert_eq!(
        advisories[0].url,
        "http://www.slackware.com/security/viewer.php?y=2023&a=0118-01"
    );
    assert_eq!(
        advisories[1].url,
        "http://www.slackware.com/security/viewer.php?y=2023&a=0118-02"
    );
    for a in &advisories {
        assert_eq!(a.year, 2023);
        assert_eq!(a.date, Date { year: 2023, month: 1, day: 18 });
        assert!(a._id.is_none());
    }
}

#[test]
fn extraction_is_deterministic() {
    let first = extract_advisories(TWO_BLOCK_PAGE, 2023).unwrap();
    let second = extract_advisories(TWO_BLOCK_PAGE, 2023).unwrap();

    assert_eq!(first.len(), second.len());
    for (a, b) in first.iter().zip(second.iter()) {
        assert_eq!(a.package_name, b.package_name);
        assert_eq!(a.url, b.url);
        assert_eq!(a.date, b.date);
        assert_eq!(a.year, b.year);
    }
}

#[test]
fn extracts_marked_block_and_trims_label() {
    let page = "2023-02-03 - <A HREF=\"viewer.php?y=2023&a=0203-01\">[slackware-security]  kernel (SSA:2023-034-01)</A>";
    let advisories = extract_advisories(page, 2023).unwrap();

    assert_eq!(advisories.len(), 1);
    assert_eq!(advisories[0].package_name, "kernel (SSA:2023-034-01)");
    assert_eq!(advisories[0].date, Date { year: 2023, month: 2, day: 3 });
}

#[test]
fn extracts_nothing_from_plain_text() {
    let advisories = extract_advisories("no advisories here, 2023-01-18 alone", 2023).unwrap();
    assert!(advisories.is_empty());
}

#[test]
fn extraction_fails_on_impossible_date() {
    let page = "2023-13-45 - <A HREF=\"viewer.php?y=2023&a=1\">foo (SSA:2023-001-01)</A>";
    assert_eq!(extract_advisories(page, 2023), Err(ExtractError::InvalidDate));
}

#[test]
fn extraction_honours_leap_years() {
    let leap = "2024-02-29 - <A HREF=\"viewer.php?y=2024&a=1\">foo (SSA:2024-060-01)</A>";
    assert_eq!(extract_advisories(leap, 2024).unwrap().len(), 1);

    let not_leap = "2023-02-29 - <A HREF=\"viewer.php?y=2023&a=1\">foo (SSA:2023-060-01)</A>";
    assert_eq!(extract_advisories(not_leap, 2023), Err(ExtractError::InvalidDate));

    let century = "1900-02-29 - <A HREF=\"viewer.php?y=1900&a=1\">foo (SSA:1900-060-01)</A>";
    assert_eq!(extract_advisories(century, 1900), Err(ExtractError::InvalidDate));

    let four_century = "2000-02-29 - <A HREF=\"viewer.php?y=2000&a=1\">foo (SSA:2000-060-01)</A>";
    assert_eq!(extract_advisories(four_century, 2000).unwrap().len(), 1);
}

#[test]
fn novelty_against_empty_store_returns_everything() {
    let latest = extract_advisories(TWO_BLOCK_PAGE, 2023).unwrap();
    let current: Vec<Advisor> = Vec::new();

    let fresh = novel(&latest, &current);

    assert_eq!(fresh.len(), 2);
    assert_eq!(fresh[0].package_name, "sudo (SSA:2023-018-01)");
    assert_eq!(fresh[1].package_name, "git (SSA:2023-018-01)");
}

#[test]
fn novelty_skips_already_stored_records() {
    let latest = extract_advisories(TWO_BLOCK_PAGE, 2023).unwrap();
    let current = vec![advisory_2023("sudo (SSA:2023-018-01)")];

    let fresh = novel(&latest, &current);

    assert_eq!(fresh.len(), 1);
    assert_eq!(fresh[0].package_name, "git (SSA:2023-018-01)");
}

#[test]
fn novelty_collapses_duplicate_keys_to_first_occurrence() {
    let date = Date { year: 2023, month: 1, day: 18 };
    let first = Advisor::new(
        None,
        date,
        "sudo (SSA:2023-018-01)".to_string(),
        "http://one.example".to_string(),
        2023,
    );
    let second = Advisor::new(
        None,
        date,
        "sudo (SSA:2023-018-01)".to_string(),
        "http://two.example".to_string(),
        2023,
    );
    let latest = vec![first, second];
    let current: Vec<Advisor> = Vec::new();

    let fresh = novel(&latest, &current);

    assert_eq!(fresh.len(), 1);
    assert_eq!(fresh[0].package_name, "sudo (SSA:2023-018-01)");
    assert_eq!(fresh[0].url, "http://one.example");
}

#[test]
fn plan_publishes_each_package_name_once() {
    let latest = vec![
        advisory_2023("sudo (SSA:2023-018-01)"),
        advisory_2023("sudo (SSA:2023-018-01)"),
        advisory_2023("git (SSA:2023-018-01)"),
    ];
    let current: Vec<Advisor> = Vec::new();

    match plan_run(Ok(latest), &current) {
        RunPlan::Publish(list) => {
            assert_eq!(list.len(), 2);
            assert_eq!(list[0].package_name, "git (SSA:2023-018-01)");
            assert_eq!(list[1].package_name, "sudo (SSA:2023-018-01)");
        }
        _ => panic!("expected a publication plan"),
    }
}

#[test]
fn plan_aborts_when_extraction_failed() {
    let current: Vec<Advisor> = Vec::new();
    let plan = plan_run(Err(ExtractError::InvalidDate), &current);
    assert!(matches!(plan, RunPlan::Abort));
}

#[test]
fn plan_short_circuits_when_list_has_not_grown() {
    let latest = vec![advisory_2023("sudo (SSA:2023-018-01)")];
    let current = vec![advisory_2023("git (SSA:2023-018-01)")];

    let plan = plan_run(Ok(latest), &current);

    assert!(matches!(plan, RunPlan::NothingNew));
}

#[test]
fn plan_publishes_novel_records_oldest_first() {
    let latest = extract_advisories(TWO_BLOCK_PAGE, 2023).unwrap();
    let current: Vec<Advisor> = Vec::new();

    let plan = plan_run(Ok(latest), &current);

    match plan {
        RunPlan::Publish(list) => {
            // The page lists newest first; the plan reverses that order.
            assert_eq!(list.len(), 2);
            assert_eq!(list[0].package_name, "git (SSA:2023-018-01)");
            assert_eq!(list[1].package_name, "sudo (SSA:2023-018-01)");
        }
        _ => panic!("expected a publication plan"),
    }
}

#[test]
fn second_run_against_unchanged_page_publishes_nothing() {
    let latest = extract_advisories(TWO_BLOCK_PAGE, 2023).unwrap();
    let mut store: Vec<Advisor> = Vec::new();

    // First run: everything is novel and gets inserted.
    match plan_run(Ok(latest.clone()), &store) {
        RunPlan::Publish(list) => {
            assert_eq!(list.len(), 2);
            for a in list {
                store.push(a);
            }
        }
        _ => panic!("expected a publication plan"),
    }

    // Second run over the same page body: nothing left to publish.
    let latest_again = extract_advisories(TWO_BLOCK_PAGE, 2023).unwrap();
    match plan_run(Ok(latest_again), &store) {
        RunPlan::Abort => panic!("second run must not abort"),
        RunPlan::NothingNew => {}
        RunPlan::Publish(list) => assert!(list.is_empty()),
    }
}

#[test]
fn notification_text_names_package_and_url() {
    let advisor = Advisor::new(
        None,
        Date { year: 2023, month: 1, day: 18 },
        "sudo (SSA:2023-018-01)".to_string(),
        "http://www.slackware.com/security/viewer.php?y=2023&a=0118-01".to_string(),
        2023,
    );

    assert_eq!(
        notification_text(&advisor),
        "#slackware security advisory for sudo (SSA:2023-018-01) http://www.slackware.com/security/viewer.php?y=2023&a=0118-01"
    );
}
