//! Names of sandboxes and shares.
use blinools::sandbox::name::{Name, MAX_LENGTH, RANDOM_LENGTH};

#[test]
fn accepts_reasonable_names() {
    assert!(Name::new("foo").is_ok());
    assert!(Name::new("foo-bar").is_ok());
    assert!(Name::new("foo_bar").is_ok());
    assert!(Name::new("foo_bar_2").is_ok());
    assert!(Name::new("A1").is_ok());
}

#[test]
fn rejects_invalid_or_not_allowed() {
    assert!(Name::new("").is_err());
    assert!(Name::new("..").is_err());
    assert!(Name::new("../../etc").is_err());
    assert!(Name::new("/etc/foo").is_err());
    assert!(Name::new("x console=ttyS0 init=/bin/sh").is_err());
    assert!(Name::new("x\tinit=/bin/sh").is_err());
    assert!(Name::new("x\ninit=/bin/sh").is_err());
    assert!(Name::new("-cache").is_err());
    assert!(Name::new("-").is_err());
    assert!(Name::new(&"a".repeat(MAX_LENGTH)).is_ok());
    assert!(Name::new(&"a".repeat(MAX_LENGTH + 1)).is_err());
}

#[test]
fn sanitizes_arbitrary_input() {
    assert_eq!(
        Name::sanitize("my project!").unwrap().as_str(),
        "my-project"
    );
    assert_eq!(
        Name::sanitize("a".repeat(50).as_str()).unwrap().as_str(),
        "a".repeat(MAX_LENGTH)
    );
    assert!(Name::sanitize("").is_none());
    assert!(Name::sanitize("///").is_none());
}

#[test]
fn each_invalid_name_has_its_message() {
    assert_eq!(Name::new("").unwrap_err(), "name must not be empty");
    assert_eq!(
        Name::new(&"a".repeat(37)).unwrap_err(),
        "name must not be longer than 36 characters"
    );
    // The limit counts bytes
    assert_eq!(
        Name::new(&"é".repeat(19)).unwrap_err(),
        "name must not be longer than 36 characters"
    );
    assert_eq!(Name::new("-a b").unwrap_err(), "name must not start with `-`");
    assert_eq!(
        Name::new("a b/c").unwrap_err(),
        "name contains the invalid character ` `, only `A-Z`, `a-z`, `0-9`, `-` and `_` are allowed"
    );
}

#[test]
fn sanitizing_keeps_names_and_is_idempotent() {
    for text in ["foo", "foo_bar-2", "A1"] {
        assert_eq!(Name::sanitize(text).unwrap().as_str(), text);
    }
    for text in ["--a//b--", "é", "..hidden", "x".repeat(40).as_str()] {
        if let Some(once) = Name::sanitize(text) {
            assert!(Name::new(once.as_str()).is_ok());
            assert_eq!(Name::sanitize(once.as_str()).unwrap().as_str(), once.as_str());
        }
    }
    // A dash at the end is cut off after the text was cut to length
    let long = format!("{}-b", "a".repeat(35));
    assert_eq!(Name::sanitize(&long).unwrap().as_str(), "a".repeat(35));
}

#[test]
fn random_names_are_valid() {
    let first = Name::randomized();
    let second = Name::randomized();
    assert_eq!(first.as_str().len(), RANDOM_LENGTH);
    assert!(first.as_str().chars().all(|c| c.is_ascii_alphanumeric()));
    assert!(Name::new(first.as_str()).is_ok());
    assert_ne!(first.as_str(), second.as_str());
}

#[test]
fn names_are_parsed_and_copied() {
    let name: Name = "foo".parse().unwrap();
    assert_eq!(name.clone().as_str(), "foo");
    assert_eq!(name, Name::new("foo").unwrap());
    assert!("a b".parse::<Name>().is_err());
}
