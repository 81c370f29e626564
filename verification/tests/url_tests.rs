use mlapibot::url::Url;

#[test]
pub fn test_full() {
    let url = Url::parse("https://example.com/some/path?query=wow").unwrap();
    assert_eq!(url.scheme(), "https");
    assert_eq!(url.domain(), "example.com");
    assert_eq!(url.path(), "/some/path");
    assert_eq!(url.query(), "?query=wow");
}

#[test]
pub fn test_path_no_query() {
    let url = Url::parse("https://example.com/some/path").unwrap();
    assert_eq!(url.scheme(), "https");
    assert_eq!(url.domain(), "example.com");
    assert_eq!(url.path(), "/some/path");
    assert_eq!(url.query(), "");
}

#[test]
pub fn test_query_no_path() {
    let url = Url::parse("https://example.com?hello=world").unwrap();
    assert_eq!(url.scheme(), "https");
    assert_eq!(url.domain(), "example.com");
    assert_eq!(url.path(), "");
    assert_eq!(url.query(), "?hello=world");
}

#[test]
pub fn test_no_query_no_path() {
    let url = Url::parse("https://example.com").unwrap();
    assert_eq!(url.scheme(), "https");
    assert_eq!(url.domain(), "example.com");
    assert_eq!(url.path(), "");
    assert_eq!(url.query(), "");
}

#[test]
pub fn test_modify() {
    let mut url = Url::parse("https://example.com/some/path?query=wow").unwrap();
    assert_eq!(url.scheme(), "https");
    assert_eq!(url.domain(), "example.com");
    assert_eq!(url.path(), "/some/path");
    assert_eq!(url.query(), "?query=wow");

    url.set_domain("other.domain.com");
    assert_eq!(url.scheme(), "https");
    assert_eq!(url.domain(), "other.domain.com");
    assert_eq!(url.path(), "/some/path");
    assert_eq!(url.query(), "?query=wow");

    url.set_path("/a/new/path/goes/here");
    assert_eq!(url.scheme(), "https");
    assert_eq!(url.domain(), "other.domain.com");
    assert_eq!(url.path(), "/a/new/path/goes/here");
    assert_eq!(url.query(), "?query=wow");
}

#[test]
pub fn correctly_fails() {
    assert_eq!(Url::parse(""), Err(()));
    assert_eq!(Url::parse("something"), Err(()));
    assert_eq!(Url::parse("example.com/wow?hello=there"), Err(()));
}
