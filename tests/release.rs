use disperse::cargo;
use disperse::date::Date;
use disperse::manpage;
use disperse::resolver::{
    age_in_days, info_status_code, last_version, previous_version_estimate, release_distance,
    release_target, resolve_status, summarize_batch, AncestryStep, ProjectOutcome, ReleaseDistance,
    ReleaseStatus,
};
use disperse::tags::{expand_tag, last_version_in_tags, tag_version, validate_tag_template, TemplateError};
use disperse::version::{compare, increment, parse, Dialect, Version, VersionError};
use std::cmp::Ordering;

fn v(s: &str) -> Version {
    parse(s, Dialect::Manifest).unwrap()
}

fn date(y: u32, m: u32, d: u32) -> Date {
    Date::new(y, m, d).unwrap()
}

const BZR: &str = ".TH BZR 1 \"2019-12-31\" \"Bazaar 2.7.0\" \"Bazaar Reference Manual\"\n";

#[test]
fn test_validate_manpage_updateable() {
    assert_eq!(manpage::validate_manpage_updateable(BZR), Err(manpage::Error::NoMatches));
}

#[test]
fn validate_accepts_placeholder_version_field() {
    let page = ".\\\" comment\n.TH BZR 1 \"2019-12-31\" \"$VERSION\" \"Bazaar Reference Manual\"\n";
    assert_eq!(manpage::validate_manpage_updateable(page), Ok(()));
}

#[test]
fn validate_rejects_page_without_title_line() {
    assert_eq!(manpage::validate_manpage_updateable(".SH NAME\nfoo\n"), Err(manpage::Error::NoMatches));
}

#[test]
fn update_manpage_rewrites_date_and_version() {
    let out = manpage::update_version_in_manpage(BZR, &v("2.8.0"), &date(2020, 1, 15)).unwrap();
    assert_eq!(out, ".TH BZR 1 2020-01-15 'Bazaar 2.8.0' 'Bazaar Reference Manual'\n");
}

#[test]
fn update_manpage_is_idempotent() {
    let once = manpage::update_version_in_manpage(BZR, &v("2.8.0"), &date(2020, 1, 15)).unwrap();
    let twice = manpage::update_version_in_manpage(&once, &v("2.8.0"), &date(2020, 1, 15)).unwrap();
    assert_eq!(once, twice);
    assert!(once.contains("2020-01-15"));
}

#[test]
fn update_manpage_keeps_month_year_form() {
    let page = ".TH FOO 1 \"March 2019\" \"foo 1.0\" \"Foo Manual\"\n.SH NAME\n";
    let out = manpage::update_version_in_manpage(page, &v("1.1"), &date(2020, 1, 15)).unwrap();
    assert_eq!(out, ".TH FOO 1 'January 2020' 'foo 1.1' 'Foo Manual'\n.SH NAME\n");
}

#[test]
fn update_manpage_edits_only_first_title_line() {
    let page = "line one\n.TH A 1 2019-01-01 \"a 0.1\" M\n.TH B 1 2019-01-01 \"b 0.1\" M\n";
    let out = manpage::update_version_in_manpage(page, &v("0.2"), &date(2021, 6, 30)).unwrap();
    assert_eq!(out, "line one\n.TH A 1 2021-06-30 'a 0.2' M\n.TH B 1 2019-01-01 \"b 0.1\" M\n");
}

#[test]
fn update_manpage_without_title_line_fails() {
    let r = manpage::update_version_in_manpage(".SH NAME\n", &v("1.0"), &date(2020, 1, 15));
    assert_eq!(r, Err(manpage::Error::NoMatches));
}

#[test]
fn update_th_fields_exact() {
    let args: Vec<String> = vec![".TH", "X", "1", "other", "pkg 3.4 extra", "M"]
        .into_iter()
        .map(String::from)
        .collect();
    let out = manpage::update_th_fields(&args, &v("3.5"), &date(2020, 2, 29));
    assert_eq!(out, vec![".TH", "X", "1", "other", "pkg 3.5 extra", "M"]);
}

#[test]
fn date_validation() {
    assert!(Date::new(2020, 2, 29).is_some());
    assert!(Date::new(2019, 2, 29).is_none());
    assert!(Date::new(2020, 13, 1).is_none());
    assert!(Date::new(10000, 1, 1).is_none());
}

#[test]
fn parse_versions() {
    assert_eq!(v("1.2.3").components, vec![1, 2, 3]);
    assert_eq!(parse("v1.2", Dialect::Tag).unwrap().components, vec![1, 2]);
    assert_eq!(parse("v1.2", Dialect::Manifest).unwrap_err(), VersionError::Malformed);
    assert_eq!(parse("1..2", Dialect::Manifest).unwrap_err(), VersionError::Malformed);
    assert_eq!(parse("", Dialect::Manifest).unwrap_err(), VersionError::Malformed);
    assert_eq!(parse("1.2a", Dialect::Manifest).unwrap_err(), VersionError::Malformed);
    assert_eq!(parse("18446744073709551615", Dialect::Manifest).unwrap().components, vec![u64::MAX]);
    assert_eq!(parse("18446744073709551616", Dialect::Manifest).unwrap_err(), VersionError::Malformed);
}

#[test]
fn version_text() {
    assert_eq!(v("1.20.3").to_string(), "1.20.3");
    assert_eq!(v("0").to_string(), "0");
}

#[test]
fn compare_pads_with_zeros() {
    assert_eq!(compare(&v("1.2"), &v("1.2.0")), Ordering::Equal);
    assert_eq!(compare(&v("1.2"), &v("1.10")), Ordering::Less);
    assert_eq!(compare(&v("2.0"), &v("1.9.9")), Ordering::Greater);
}

#[test]
fn increment_orders_after() {
    let x = v("1.2.3");
    for i in 0..3 {
        let y = increment(&x, i, 1).unwrap();
        assert_eq!(compare(&x, &y), Ordering::Less);
    }
    assert_eq!(increment(&x, 1, 1).unwrap().components, vec![1, 3, 0]);
}

#[test]
fn decrement_then_increment() {
    let x = v("1.2.3");
    let down = increment(&x, 2, -1).unwrap();
    assert_eq!(down.components, vec![1, 2, 2]);
    assert_eq!(increment(&down, 2, 1).unwrap().components, vec![1, 2, 3]);
    assert_eq!(increment(&v("1.2.0"), 2, -1).unwrap_err(), VersionError::NoPriorVersion);
}

#[test]
fn expand_tag_substitutes_version() {
    assert_eq!(expand_tag("v$VERSION", &v("1.2.3")), "v1.2.3");
    assert_eq!(expand_tag("release-$VERSION-final", &v("2.0")), "release-2.0-final");
}

#[test]
fn tag_template_validation() {
    assert_eq!(validate_tag_template("v$VERSION"), Ok(()));
    assert_eq!(validate_tag_template("v1.2"), Err(TemplateError::MissingPlaceholder));
    assert_eq!(validate_tag_template("$VERSION-$VERSION"), Err(TemplateError::RepeatedPlaceholder));
}

#[test]
fn versions_from_tags() {
    assert_eq!(tag_version("v$VERSION", "v1.4").unwrap().components, vec![1, 4]);
    assert!(tag_version("v$VERSION", "x1.4").is_none());
    assert!(tag_version("v$VERSION", "vnext").is_none());
    let tags: Vec<String> = vec!["v1.0.0", "v1.2.0", "foo", "v1.10.0", "v0.9"]
        .into_iter()
        .map(String::from)
        .collect();
    assert_eq!(last_version_in_tags("v$VERSION", &tags).unwrap().components, vec![1, 10, 0]);
    assert!(last_version_in_tags("rel-$VERSION", &tags).is_none());
}

const MANIFEST: &str = "# top comment\n[package]\nname = \"foo\"\nversion = \"0.1.0\" # the version\nedition = \"2021\"\n\n[dependencies]\nbar = \"1\"\n";

#[test]
fn manifest_version_is_found() {
    assert_eq!(cargo::find_version(MANIFEST).unwrap().components, vec![0, 1, 0]);
}

#[test]
fn manifest_update_changes_only_version() {
    let out = cargo::update_version(MANIFEST, "0.2.0").unwrap();
    assert_eq!(
        out,
        "# top comment\n[package]\nname = \"foo\"\nversion = \"0.2.0\" # the version\nedition = \"2021\"\n\n[dependencies]\nbar = \"1\"\n"
    );
    assert_eq!(cargo::find_version(&out).unwrap().components, vec![0, 2, 0]);
}

#[test]
fn manifest_errors() {
    assert_eq!(cargo::find_version("[package]\nname = \"x\"\n").unwrap_err(), cargo::Error::NoVersion);
    assert_eq!(cargo::update_version("[package]\nname = \"x\"\n", "1.0").unwrap_err(), cargo::Error::NoVersion);
    assert_eq!(cargo::find_version("[package\n").unwrap_err(), cargo::Error::InvalidManifest);
    assert_eq!(
        cargo::find_version("[package]\nversion = \"one\"\n").unwrap_err(),
        cargo::Error::VersionError(VersionError::Malformed)
    );
}

#[test]
fn distance_at_tip_means_nothing_pending() {
    let d = release_distance(true, true, &vec![], 1_000_000);
    assert_eq!(d, ReleaseDistance::AtTip);
    let s = resolve_status(&Some(v("1.0")), &d, &Some("1.1".to_string()));
    assert!(matches!(s, ReleaseStatus::NoPendingChanges));
}

#[test]
fn distance_counts_revisions_since_tag() {
    let day = 86_400;
    let now = 100 * day;
    let walked = vec![
        AncestryStep::Revision { timestamp: now - day },
        AncestryStep::Revision { timestamp: now - 2 * day },
        AncestryStep::Revision { timestamp: now - 5 * day - 10 },
    ];
    assert_eq!(
        release_distance(true, false, &walked, now),
        ReleaseDistance::Since { revisions: 3, first_age_days: 5 }
    );
}

#[test]
fn distance_other_cases() {
    let walked = vec![AncestryStep::Revision { timestamp: 0 }, AncestryStep::Root];
    assert_eq!(release_distance(true, false, &walked, 0), ReleaseDistance::NotInAncestry);
    assert_eq!(release_distance(false, false, &walked, 0), ReleaseDistance::TagNotFound);
    assert_eq!(age_in_days(0, -86_401), -1);
    assert_eq!(age_in_days(0, 86_399), 0);
}

#[test]
fn status_classification() {
    let far = ReleaseDistance::Since { revisions: 2, first_age_days: 1 };
    assert!(matches!(resolve_status(&None, &far, &None), ReleaseStatus::Unknown));
    assert!(matches!(resolve_status(&Some(v("1.0")), &far, &None), ReleaseStatus::Released));
    match resolve_status(&Some(v("1.0")), &far, &Some("1.1".to_string())) {
        ReleaseStatus::Unreleased(x) => assert_eq!(x.components, vec![1, 1]),
        _ => panic!("expected an unreleased version"),
    }
    match resolve_status(&Some(v("1.0")), &far, &Some("1.1~dev".to_string())) {
        ReleaseStatus::OddPending(raw) => assert_eq!(raw, "1.1~dev"),
        _ => panic!("expected an odd pending version"),
    }
    assert_eq!(info_status_code(&ReleaseStatus::OddPending("x".to_string())), 1);
    assert_eq!(info_status_code(&ReleaseStatus::Released), 0);
    assert!(release_target(&ReleaseStatus::Released).is_none());
    assert_eq!(release_target(&ReleaseStatus::Unreleased(v("2.0"))).unwrap().components, vec![2, 0]);
}

#[test]
fn last_version_falls_back_to_tags() {
    let tags: Vec<String> = vec!["v0.3".to_string(), "v0.4".to_string()];
    let t = Some("v$VERSION".to_string());
    assert_eq!(last_version(Some(v("9.9")), &t, &tags).unwrap().components, vec![9, 9]);
    assert_eq!(last_version(None, &t, &tags).unwrap().components, vec![0, 4]);
    assert!(last_version(None, &None, &tags).is_none());
}

#[test]
fn previous_version_estimates() {
    assert_eq!(previous_version_estimate(&v("1.2.3")).unwrap().components, vec![1, 2, 2]);
    assert_eq!(previous_version_estimate(&v("1.0")).unwrap_err(), VersionError::NoPriorVersion);
}

#[test]
fn batch_failure_does_not_stop_others() {
    let (codes, exit) = summarize_batch(&vec![ProjectOutcome::Failed, ProjectOutcome::Finished(0)]);
    assert_eq!(codes, vec![1, 0]);
    assert_eq!(exit, 1);
    let (codes, exit) = summarize_batch(&vec![ProjectOutcome::Failed, ProjectOutcome::Finished(1)]);
    assert_eq!(codes, vec![1, 1]);
    assert_eq!(exit, 2);
    let (codes, exit) = summarize_batch(&vec![ProjectOutcome::Finished(0), ProjectOutcome::Finished(0)]);
    assert_eq!(codes, vec![0, 0]);
    assert_eq!(exit, 0);
    assert_eq!(summarize_batch(&vec![]).1, 0);
}

#[test]
fn pre_release_versions() {
    let x = v("0.1.0-alpha.1");
    assert_eq!(x.components, vec![0, 1, 0]);
    assert_eq!(x.pre.as_deref(), Some("alpha.1"));
    assert_eq!(x.to_string(), "0.1.0-alpha.1");
    assert_eq!(parse("v2.0-rc1", Dialect::Tag).unwrap().pre.as_deref(), Some("rc1"));
    assert_eq!(parse("1.0-", Dialect::Manifest).unwrap_err(), VersionError::Malformed);
    assert_eq!(parse("1.0-a b", Dialect::Manifest).unwrap_err(), VersionError::Malformed);
    assert_eq!(parse("1.x-a", Dialect::Manifest).unwrap_err(), VersionError::Malformed);
    assert_eq!(compare(&v("1.0-alpha"), &v("1.0")), Ordering::Less);
    assert_eq!(compare(&v("1.0-alpha"), &v("1.0-beta")), Ordering::Less);
    assert_eq!(compare(&v("1.0-beta"), &v("1.0.0-beta")), Ordering::Equal);
    assert_eq!(compare(&v("1.1-alpha"), &v("1.0")), Ordering::Greater);
    assert!(increment(&v("1.0-rc1"), 1, 1).unwrap().pre.is_none());
}

#[test]
fn manifest_with_pre_release_version() {
    let m = "[package]\nname = \"x\"\nversion = \"0.1.0-alpha\"\n";
    let found = cargo::find_version(m).unwrap();
    assert_eq!(found.components, vec![0, 1, 0]);
    assert_eq!(found.pre.as_deref(), Some("alpha"));
}

#[test]
fn manifest_update_is_idempotent_and_readable() {
    let once = cargo::update_version(MANIFEST, "0.2.0").unwrap();
    let twice = cargo::update_version(&once, "0.2.0").unwrap();
    assert_eq!(once, twice);
    let no_newline = "[package]\nversion = \"1\"";
    let out = cargo::update_version(no_newline, "2").unwrap();
    assert_eq!(cargo::find_version(&out).unwrap().components, vec![2]);
}

#[test]
fn update_manpage_keeps_text_around_version() {
    let page = ".TH BZR 1 \"2019-12-31\" \"Bazaar 2.7.0 beta\" \"Bazaar Reference Manual\"\n";
    let out = manpage::update_version_in_manpage(page, &v("2.8.0"), &date(2020, 1, 15)).unwrap();
    assert_eq!(out, ".TH BZR 1 2020-01-15 'Bazaar 2.8.0 beta' 'Bazaar Reference Manual'\n");
}

#[test]
fn version_text_parses_back() {
    for s in ["0", "1.2.3", "10.0.200", "18446744073709551615.7"] {
        let x = v(s);
        assert_eq!(parse(&x.to_string(), Dialect::Manifest).unwrap().components, x.components);
    }
}
