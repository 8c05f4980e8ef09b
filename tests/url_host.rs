use server_switcher::url_host::{rewrite_host, UrlError};

#[test]
fn host_only_replacement() {
    let r = rewrite_host("http://old.host:8080/api?x=1", "new.host").unwrap();
    assert_eq!(r, "http://new.host:8080/api?x=1");
    assert!(r.starts_with("http://"));
    assert!(r.contains(":8080"));
    assert!(r.contains("/api"));
    assert!(r.ends_with("?x=1"));
}

#[test]
fn fragment_and_credentials_are_kept() {
    let r = rewrite_host("https://user:pw@old.host/p/q#frag", "new.host").unwrap();
    assert_eq!(r, "https://user:pw@new.host/p/q#frag");
}

#[test]
fn host_is_normalised_by_the_parser() {
    let r = rewrite_host("http://old.host/", "New.Host").unwrap();
    assert_eq!(r, "http://new.host/");
}

#[test]
fn url_errors() {
    assert_eq!(rewrite_host("no scheme", "new.host"), Err(UrlError::InvalidUrl));
    assert_eq!(rewrite_host("http://old.host/", ""), Err(UrlError::InvalidHost));
    assert_eq!(rewrite_host("data:text/plain,x", "new.host"), Err(UrlError::InvalidHost));
}
