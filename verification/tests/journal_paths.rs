use noteutil::config::Config;
use noteutil::config::Journal;
use noteutil::config::JournalPath;
use noteutil::context::Context;
use noteutil::date::Date;
use noteutil::journal::JournalError;
use noteutil::journal::Period;
use noteutil::journal::paths;

fn strings(v: &[&str]) -> Vec<String> {
    v.iter().map(|s| s.to_string()).collect()
}

#[test]
fn no_periods() {
    let date = Date::new(2023, 10, 21).unwrap();
    let got = paths(date, &Vec::new(), ".", &Config::default()).unwrap();
    assert_eq!(
        got,
        strings(&[
            "./journals/2023-10-21.md",
            "./journals/2023-w42.md",
            "./journals/2023-10.md",
            "./journals/2023.md",
        ])
    );
}

#[test]
fn one_period() {
    let date = Date::new(2023, 10, 21).unwrap();
    let got = paths(date, &vec![Period::Daily], ".", &Config::default()).unwrap();
    assert_eq!(got, strings(&["./journals/2023-10-21.md"]));
}

#[test]
fn journal_no_periods() {
    let ctx = Context::default();
    let date = Date::new(2023, 10, 21).unwrap();
    let got = paths(date, &Vec::new(), ".", &ctx.config).unwrap();
    assert_eq!(
        got,
        strings(&[
            "./journals/2023-10-21.md",
            "./journals/2023-w42.md",
            "./journals/2023-10.md",
            "./journals/2023.md",
        ])
    );
}

#[test]
fn journal_one_period() {
    let ctx = Context::default();
    let date = Date::new(2023, 10, 21).unwrap();
    let got = paths(date, &vec![Period::Daily], ".", &ctx.config).unwrap();
    assert_eq!(got, strings(&["./journals/2023-10-21.md"]));
}

#[test]
fn empty_request_equals_all_four() {
    let date = Date::new(2024, 2, 29).unwrap();
    let config = Config::default();
    let defaulted = paths(date, &Vec::new(), "/notes", &config).unwrap();
    let explicit = paths(
        date,
        &vec![Period::Daily, Period::Weekly, Period::Monthly, Period::Yearly],
        "/notes",
        &config,
    )
    .unwrap();
    assert_eq!(defaulted, explicit);
    assert_eq!(defaulted.len(), 4);
}

#[test]
fn absolute_root_and_plain_templates() {
    let date = Date::new(2021, 1, 2).unwrap();
    let config = Config {
        root_dir: String::from("/home/me/notes"),
        journal: Journal {
            path: JournalPath {
                daily: String::from("d/%Y-%m-%d.md"),
                weekly: String::from("w/%Y-w%U.md"),
                monthly: String::from("m/%Y-%m.md"),
                yearly: String::from("y/%Y.md"),
            },
        },
    };
    let got = paths(date, &Vec::new(), "/home/me/notes", &config).unwrap();
    assert_eq!(
        got,
        strings(&[
            "/home/me/notes/d/2021-01-02.md",
            "/home/me/notes/w/2021-w00.md",
            "/home/me/notes/m/2021-01.md",
            "/home/me/notes/y/2021.md",
        ])
    );
}

#[test]
fn malformed_template_is_rejected() {
    let date = Date::new(2023, 10, 21).unwrap();
    let config = Config {
        root_dir: String::from("."),
        journal: Journal {
            path: JournalPath {
                daily: String::from("journals/%"),
                weekly: String::from("journals/%Y-w%U.md"),
                monthly: String::from("journals/%Y-%m.md"),
                yearly: String::from("journals/%Y.md"),
            },
        },
    };
    let got = paths(date, &vec![Period::Daily], ".", &config);
    assert_eq!(got, Err(JournalError::InvalidTemplate));
    // the malformed daily template does not matter to a yearly request
    let yearly = paths(date, &vec![Period::Yearly], ".", &config).unwrap();
    assert_eq!(yearly, strings(&["./journals/2023.md"]));
}

#[test]
fn invalid_dates_are_rejected() {
    assert!(Date::new(2023, 2, 29).is_none());
    assert!(Date::new(2024, 2, 29).is_some());
    assert!(Date::new(2023, 13, 1).is_none());
    assert!(Date::new(2023, 0, 1).is_none());
    assert!(Date::new(2023, 4, 31).is_none());
    assert!(Date::new(1900, 2, 29).is_none());
    assert!(Date::new(2000, 2, 29).is_some());
}
