use std::str::FromStr;

use buffer_pool::{
    sample_function, BreakFast, GrepConfg, Guess, Language, Rectangle, Summary, Tweet,
};

#[test]
fn rectangle_holds_only_smaller_on_both_sides() {
    let larger = Rectangle::new(8, 7);
    let smaller = Rectangle::new(5, 1);
    assert!(larger.can_hold(&smaller));
    assert!(!smaller.can_hold(&larger));
    assert!(!larger.can_hold(&Rectangle::new(8, 1)));
    assert!(Rectangle::new(3, 4) == Rectangle::new(3, 4));
}

#[test]
fn guess_keeps_its_value() {
    assert_eq!(Guess::new(1).value(), 1);
    assert_eq!(Guess::new(50).value(), 50);
    assert_eq!(Guess::new(100).value(), 100);
}

#[test]
fn summer_breakfast_has_the_toast_asked_for() {
    let meal = BreakFast::summer("Rye");
    assert_eq!(meal.toast, "Rye");
}

#[test]
fn sample_function_returns_239() {
    assert_eq!(sample_function(), 239);
}

#[test]
fn language_codes() {
    assert_eq!(Language::from_str("ja"), Ok(Language::Japanese));
    assert_eq!(Language::from_str("en"), Ok(Language::English));
    assert_eq!(Language::from_str("fr"), Err(()));
    assert_eq!(Language::from_str("j"), Err(()));
    assert_eq!(Language::from_code("enx"), None);
}

#[test]
fn grep_config_needs_query_and_file() {
    let args = vec![String::from("grep"), String::from("needle"), String::from("hay.txt")];
    let config = GrepConfg::new(args).unwrap();
    assert_eq!(config.query(), "needle");
    assert_eq!(config.filename(), "hay.txt");
    assert!(GrepConfg::new(vec![String::from("grep"), String::from("needle")]).is_err());
    assert!(GrepConfg::new(Vec::new()).is_err());
}

#[test]
fn tweet_summary_and_first_word() {
    let tweet = Tweet { author: String::from("yori"), text: String::from("hello every one") };
    assert_eq!(tweet.summarize(), "yori. hello every one");
    assert_eq!(tweet.first_word(), "hello");
    assert_eq!(tweet.default(), "default words");
    let single = Tweet { author: String::new(), text: String::from("こんにちは") };
    assert_eq!(single.first_word(), "こんにちは");
    assert_eq!(single.summarize(), ". こんにちは");
}
