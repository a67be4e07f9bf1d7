use rustsecbot::driver::Mode;
use rustsecbot::text::{decimal_string, split_str, trim_str};
use rustsecbot::{GitHubRepo, Labels, RepoError};

fn labels(s: &str) -> Vec<String> {
    match Labels::from_str(s) {
        Ok(labels) => labels.into_vec(),
        Err(never) => match never {},
    }
}

#[test]
fn repo_is_owner_and_name() {
    let repo = GitHubRepo::from_str("octocat/hello-world").expect("one slash");
    assert_eq!(repo.owner, "octocat");
    assert_eq!(repo.name, "hello-world");
}

#[test]
fn repo_parts_may_be_empty() {
    let repo = GitHubRepo::from_str("/").expect("one slash");
    assert_eq!(repo.owner, "");
    assert_eq!(repo.name, "");
    let repo = GitHubRepo::from_str("owner/").expect("one slash");
    assert_eq!(repo.owner, "owner");
    assert_eq!(repo.name, "");
    let repo = GitHubRepo::from_str("/name").expect("one slash");
    assert_eq!(repo.owner, "");
    assert_eq!(repo.name, "name");
}

#[test]
fn repo_without_slash_misses_the_name() {
    assert_eq!(
        GitHubRepo::from_str("rustsecbot").expect_err("no slash"),
        RepoError::MissingRepo
    );
    assert_eq!(GitHubRepo::from_str("").expect_err("no slash"), RepoError::MissingRepo);
    assert_eq!(RepoError::MissingRepo.message(), "missing repo");
}

#[test]
fn repo_with_two_slashes_has_too_many_parts() {
    assert_eq!(
        GitHubRepo::from_str("a/b/c").expect_err("two slashes"),
        RepoError::TooManyParts
    );
    assert_eq!(
        GitHubRepo::from_str("//").expect_err("two slashes"),
        RepoError::TooManyParts
    );
    assert_eq!(RepoError::TooManyParts.message(), "too many parts");
}

#[test]
fn repo_parses_through_the_trait() {
    let repo: GitHubRepo = "héllo/wörld".parse().expect("one slash");
    assert_eq!(repo.owner, "héllo");
    assert_eq!(repo.name, "wörld");
}

#[test]
fn labels_are_split_at_commas() {
    assert_eq!(labels("rust,security"), vec!["rust", "security"]);
    assert_eq!(labels("one"), vec!["one"]);
}

#[test]
fn labels_are_trimmed_and_empty_ones_dropped() {
    assert_eq!(labels(" rust , security ,"), vec!["rust", "security"]);
    assert_eq!(labels(",,a,, ,b"), vec!["a", "b"]);
    assert_eq!(labels("area / deps,\tgood first issue\n"), vec!["area / deps", "good first issue"]);
    assert!(labels("").is_empty());
    assert!(labels(" , \t ,").is_empty());
}

#[test]
fn labels_lose_every_kind_of_white_space_at_their_ends() {
    assert_eq!(labels("\u{a0}wide\u{2003},\u{3000}x y\u{2028}"), vec!["wide", "x y"]);
    assert_eq!(labels("\u{200b}zero"), vec!["\u{200b}zero"]);
}

#[test]
fn labels_parse_through_the_trait() {
    let parsed: Labels = "a, b".parse().expect("never fails");
    assert_eq!(parsed.into_vec(), vec!["a", "b"]);
}

#[test]
fn split_keeps_empty_pieces() {
    assert_eq!(split_str("a,b", ','), vec!["a", "b"]);
    assert_eq!(split_str("", ','), vec![""]);
    assert_eq!(split_str(",", ','), vec!["", ""]);
    assert_eq!(split_str("a,,b,", ','), vec!["a", "", "b", ""]);
    assert_eq!(split_str("ä/ö", '/'), vec!["ä", "ö"]);
}

#[test]
fn trim_takes_white_space_from_both_ends_only() {
    assert_eq!(trim_str("  a b  "), "a b");
    assert_eq!(trim_str("a"), "a");
    assert_eq!(trim_str(""), "");
    assert_eq!(trim_str(" \t\r\n"), "");
    assert_eq!(trim_str("\u{1680}é\u{205f}"), "é");
}

#[test]
fn mode_is_read_in_either_case() {
    assert_eq!(Mode::from_str("check").expect("a mode"), Mode::Check);
    assert_eq!(Mode::from_str("report").expect("a mode"), Mode::Report);
    assert_eq!(Mode::from_str("CHECK").expect("a mode"), Mode::Check);
    assert_eq!(Mode::from_str("RePoRt").expect("a mode"), Mode::Report);
}

#[test]
fn mode_refuses_other_words() {
    let error = Mode::from_str("verify").expect_err("no mode");
    assert_eq!(error.0, "verify");
    assert_eq!(error.message(), "invalid mode: verify");
    assert!(Mode::from_str("").is_err());
    assert!(Mode::from_str("check ").is_err());
    assert!(Mode::from_str("checks").is_err());
    assert!(Mode::from_str("chec").is_err());
    assert!(Mode::from_str("ſheck").is_err());
    assert!(Mode::from_str("r\u{e9}port").is_err());
}

#[test]
fn mode_parses_through_the_trait() {
    let mode: Mode = "Check".parse().expect("a mode");
    assert_eq!(mode, Mode::Check);
}

#[test]
fn numbers_are_written_in_decimal() {
    assert_eq!(decimal_string(0), "0");
    assert_eq!(decimal_string(7), "7");
    assert_eq!(decimal_string(10), "10");
    assert_eq!(decimal_string(1234567890), "1234567890");
    assert_eq!(decimal_string(u64::MAX), "18446744073709551615");
}
