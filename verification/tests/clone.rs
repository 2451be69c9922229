use std::path::PathBuf;

use herostratus::git::clone::{get_clone_path, parse_path_from_url, UrlError};

#[test]
fn clone_test_parse_path_from_url() {
    let url_paths = [
        (
            "git@github.com:Notgnoshi/herostratus.git",
            "Notgnoshi/herostratus.git",
        ),
        ("domain:path", "path"),
        ("ssh://git@example.com:2222/path.git", "path.git"),
        ("ssh://git@example.com/path.git", "path.git"),
        ("https://example.com/path", "path"),
        ("file:///tmp/foo", "tmp/foo"),
    ];

    for (url, expected) in url_paths {
        let expected = PathBuf::from(expected);
        let actual = PathBuf::from(parse_path_from_url(url).unwrap());
        assert_eq!(expected, actual);
    }
}

#[test]
fn test_clone_test_parse_path_from_url() {
    let url_paths = [
        (
            "git@github.com:Notgnoshi/herostratus.git",
            "Notgnoshi/herostratus.git",
        ),
        ("domain:path", "path"),
        ("ssh://git@example.com:2222/path.git", "path.git"),
        ("ssh://git@example.com/path.git", "path.git"),
        ("https://example.com/path", "path"),
        ("file:///tmp/foo", "tmp/foo"),
    ];

    for (url, expected) in url_paths {
        let expected = PathBuf::from(expected);
        let actual = PathBuf::from(parse_path_from_url(url).unwrap());
        assert_eq!(expected, actual);
    }
}

#[test]
fn test_parse_path_from_url() {
    let url_paths = [
        (
            "git@github.com:Notgnoshi/herostratus.git",
            "Notgnoshi/herostratus.git",
        ),
        ("domain:path", "path"),
        ("ssh://git@example.com:2222/path.git", "path.git"),
        ("ssh://git@example.com/path.git", "path.git"),
        ("https://example.com/path", "path"),
        ("file:///tmp/foo", "tmp/foo"),
    ];

    for (url, expected) in url_paths {
        let expected = PathBuf::from(expected);
        let actual = PathBuf::from(parse_path_from_url(url).unwrap());
        assert_eq!(expected, actual);
    }
}

#[test]
fn parse_path_from_url_errors() {
    assert_eq!(
        parse_path_from_url("https://example.com"),
        Err(UrlError::MissingSlash)
    );
    assert_eq!(
        parse_path_from_url("svn://example.com/path"),
        Err(UrlError::UnsupportedProtocol)
    );
    assert_eq!(
        parse_path_from_url("no-separator-at-all"),
        Err(UrlError::MissingColon)
    );
    assert_eq!(parse_path_from_url(""), Err(UrlError::MissingColon));
}

#[test]
fn parse_path_from_url_keeps_what_follows_the_first_separator() {
    assert_eq!(parse_path_from_url("a:b:c").unwrap(), "b:c");
    assert_eq!(parse_path_from_url("git://host/a/b/c").unwrap(), "a/b/c");
    assert_eq!(parse_path_from_url("ftps://host/").unwrap(), "");
    assert_eq!(parse_path_from_url("http://host/x").unwrap(), "x");
    assert_eq!(parse_path_from_url("ftp://host/x").unwrap(), "x");
}

#[test]
fn clone_path_lies_under_git_in_the_data_dir() {
    assert_eq!(
        get_clone_path("/data", "git@github.com:Notgnoshi/herostratus.git").unwrap(),
        "/data/git/Notgnoshi/herostratus.git"
    );
    assert_eq!(
        get_clone_path("/data/", "https://example.com/foo").unwrap(),
        "/data/git/foo"
    );
    assert_eq!(
        get_clone_path("/data", "https://example.com"),
        Err(UrlError::MissingSlash)
    );
}

#[test]
fn clone_path_of_an_absolute_path_is_that_path() {
    assert_eq!(
        get_clone_path("/data", "ssh://host//srv/repo.git").unwrap(),
        "/srv/repo.git"
    );
}
