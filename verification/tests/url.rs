use menemen::url::{QueryParam, Url};

#[test]
fn test_url_parsing() {
    // Test URLs with http schema
    let url = Url::build_from_string(
        "http://example.com/path/to/resource?foo=bar&baz=qux".to_string(),
    )
    .unwrap();
    assert_eq!(url.is_https, false);
    assert_eq!(url.host, "example.com".to_string());
    assert_eq!(url.port, 80);
    assert_eq!(
        url.paths,
        vec!["path".to_string(), "to".to_string(), "resource".to_string()]
    );
    assert_eq!(
        url.query_params,
        vec![
            QueryParam {
                name: "foo".to_string(),
                value: "bar".to_string()
            },
            QueryParam {
                name: "baz".to_string(),
                value: "qux".to_string()
            }
        ]
    );

    // Test URLs with https schema
    let url = Url::build_from_string("https://example.com/test?q1=123&q2=456".to_string()).unwrap();
    assert_eq!(url.is_https, true);
    assert_eq!(url.host, "example.com".to_string());
    assert_eq!(url.port, 443);
    assert_eq!(url.paths, vec!["test".to_string()]);
    assert_eq!(
        url.query_params,
        vec![
            QueryParam {
                name: "q1".to_string(),
                value: "123".to_string()
            },
            QueryParam {
                name: "q2".to_string(),
                value: "456".to_string()
            }
        ]
    );

    // Test URLs with custom port number
    let url =
        Url::build_from_string("http://example.com:8080/foo/bar?baz=qux".to_string()).unwrap();
    assert_eq!(url.is_https, false);
    assert_eq!(url.host, "example.com".to_string());
    assert_eq!(url.port, 8080);
    assert_eq!(url.paths, vec!["foo".to_string(), "bar".to_string()]);
    assert_eq!(
        url.query_params,
        vec![QueryParam {
            name: "baz".to_string(),
            value: "qux".to_string()
        }]
    );

    // Test URLs with multiple paths
    let url = Url::build_from_string(
        "https://example.com/path/to/my/resource?param1=value1&param2=value2".to_string(),
    )
    .unwrap();
    assert_eq!(url.is_https, true);
    assert_eq!(url.host, "example.com".to_string());
    assert_eq!(url.port, 443);
    assert_eq!(
        url.paths,
        vec![
            "path".to_string(),
            "to".to_string(),
            "my".to_string(),
            "resource".to_string()
        ]
    );
    assert_eq!(
        url.query_params,
        vec![
            QueryParam {
                name: "param1".to_string(),
                value: "value1".to_string()
            },
            QueryParam {
                name: "param2".to_string(),
                value: "value2".to_string()
            }
        ]
    );

    // Test URLs with no path and no query parameters
    let url = Url::build_from_string("https://example.com".to_string()).unwrap();
    assert_eq!(url.is_https, true);
    assert_eq!(url.host, "example.com".to_string());
    assert_eq!(url.port, 443);
    assert_eq!(url.paths.len(), 0);
    assert_eq!(url.query_params, vec![]);
}

fn param(name: &str, value: &str) -> QueryParam {
    QueryParam {
        name: name.to_string(),
        value: value.to_string(),
    }
}

fn parse(text: &str) -> Url {
    Url::build_from_string(text.to_string()).unwrap()
}

#[test]
fn bare_https_host() {
    let url = parse("https://example.com");
    assert_eq!(url.is_https, true);
    assert_eq!(url.host, "example.com");
    assert_eq!(url.port, 443);
    assert_eq!(url.paths, Vec::<String>::new());
    assert_eq!(url.query_params, Vec::<QueryParam>::new());
}

#[test]
fn port_path_and_query() {
    let url = parse("http://example.com:8080/foo/bar?baz=qux");
    assert_eq!(url.is_https, false);
    assert_eq!(url.host, "example.com");
    assert_eq!(url.port, 8080);
    assert_eq!(url.paths, vec!["foo".to_string(), "bar".to_string()]);
    assert_eq!(url.query_params, vec![param("baz", "qux")]);
}

#[test]
fn a_slash_alone_is_no_segment() {
    let url = parse("http://example.com/");
    assert_eq!(url.paths.len(), 0);
    assert_eq!(url.query_params.len(), 0);
    let url = parse("http://example.com:81/");
    assert_eq!(url.port, 81);
    assert_eq!(url.paths.len(), 0);
}

#[test]
fn empty_segments_are_kept() {
    let url = parse("http://example.com/a/");
    assert_eq!(url.paths, vec!["a".to_string(), "".to_string()]);
    let url = parse("http://example.com//");
    assert_eq!(url.paths, vec!["".to_string(), "".to_string()]);
    let url = parse("http://example.com/a//b");
    assert_eq!(
        url.paths,
        vec!["a".to_string(), "".to_string(), "b".to_string()]
    );
}

#[test]
fn only_https_is_secure() {
    assert_eq!(parse("http://h").port, 80);
    assert_eq!(parse("ftp://h").port, 80);
    assert!(!parse("ftp://h").is_https);
    assert!(!parse("HTTPS://h").is_https);
    assert!(!parse("https+x://h").is_https);
    assert!(parse("https://h:80").is_https);
    assert_eq!(parse("https://h:80").port, 80);
}

#[test]
fn without_a_scheme_the_whole_text_is_both() {
    let url = parse("example.com/a");
    assert!(!url.is_https);
    assert_eq!(url.host, "example.com");
    assert_eq!(url.port, 80);
    assert_eq!(url.paths, vec!["a".to_string()]);
    // the text `https` alone is its own scheme
    let url = parse("https");
    assert!(url.is_https);
    assert_eq!(url.host, "https");
    assert_eq!(url.port, 443);
}

#[test]
fn the_scheme_ends_at_the_first_separator() {
    let url = parse("http://a/http://b");
    assert_eq!(url.host, "a");
    assert_eq!(
        url.paths,
        vec!["http:".to_string(), "".to_string(), "b".to_string()]
    );
    let url = parse("://host/x");
    assert!(!url.is_https);
    assert_eq!(url.host, "host");
    assert_eq!(url.paths, vec!["x".to_string()]);
}

#[test]
fn malformed_ports() {
    for text in [
        "http://example.com:port/",
        "http://example.com:/",
        "http://example.com:",
        "http://example.com:65536",
        "http://example.com:-1/",
        "http://example.com: 80/",
        "http://example.com:80:90/",
        "http://example.com:8o/",
        "http://example.com:+",
    ] {
        match Url::build_from_string(text.to_string()) {
            Err(e) => assert_eq!(e, menemen::error::RequestErrors::MalformedUrl, "{}", text),
            Ok(url) => panic!("{} was read as {:?}", text, url),
        }
    }
}

#[test]
fn ports_at_the_limits() {
    assert_eq!(parse("http://h:0/").port, 0);
    assert_eq!(parse("http://h:65535").port, 65535);
    assert_eq!(parse("http://h:00080/").port, 80);
    assert_eq!(parse("http://h:+8080/").port, 8080);
}

#[test]
fn a_colon_after_the_first_slash_is_no_port() {
    let url = parse("http://example.com/a:b");
    assert_eq!(url.host, "example.com");
    assert_eq!(url.port, 80);
    assert_eq!(url.paths, vec!["a:b".to_string()]);
}

#[test]
fn segments_are_cut_at_their_question_mark() {
    let url = parse("http://h/a?x=1/b");
    assert_eq!(url.paths, vec!["a".to_string(), "b".to_string()]);
    assert_eq!(url.query_params, Vec::<QueryParam>::new());
    let url = parse("http://h/a/b?x=1?y=2");
    assert_eq!(url.paths, vec!["a".to_string(), "b".to_string()]);
    assert_eq!(url.query_params, vec![param("x", "1?y=2")]);
}

#[test]
fn query_pairs_are_cut_at_the_first_equals_sign() {
    let url = parse("http://h/p?a=b=c&flag&=v&k=");
    assert_eq!(
        url.query_params,
        vec![
            param("a", "b=c"),
            param("flag", ""),
            param("", "v"),
            param("k", "")
        ]
    );
    let url = parse("http://h/p?");
    assert_eq!(url.paths, vec!["p".to_string()]);
    assert_eq!(url.query_params, vec![param("", "")]);
    let url = parse("http://h/?q=1");
    assert_eq!(url.paths, vec!["".to_string()]);
    assert_eq!(url.query_params, vec![param("q", "1")]);
}

#[test]
fn a_query_without_a_path_belongs_to_the_host() {
    let url = parse("http://h?x=1");
    assert_eq!(url.host, "h?x=1");
    assert_eq!(url.paths.len(), 0);
    assert_eq!(url.query_params.len(), 0);
}

#[test]
fn joined_query_params() {
    let url = parse("https://behemehal.org/test?first=test&second=test");
    assert_eq!(url.join_query_params(), "first=test&second=test");
    assert_eq!(parse("https://behemehal.org/test").join_query_params(), "");
    assert_eq!(parse("http://h/p?flag").join_query_params(), "flag=");
}

#[test]
fn text_with_the_port_written_out() {
    assert_eq!(
        parse("https://example.com").to_text(),
        "https://example.com:443/"
    );
    assert_eq!(
        parse("http://example.com:8080/foo/bar?baz=qux").to_text(),
        "http://example.com:8080/foo/bar?baz=qux"
    );
    assert_eq!(parse("ftp://h/a/?k").to_text(), "http://h:80/a/?k=");
    assert_eq!(parse("http://h:0//").to_text(), "http://h:0//");
}

#[test]
fn reading_what_was_written_gives_the_same_url() {
    for text in [
        "https://example.com",
        "http://example.com:8080/foo/bar?baz=qux",
        "http://example.com/path/to/resource?foo=bar&baz=qux",
        "http://h/a/?x=1&y&=z&w=a=b",
        "http://h/?q",
        "http://h//",
        "http://h/a?x/b?",
        "h?x/y?z?w",
        "https://:7/",
        "://",
        "",
    ] {
        let first = parse(text);
        let second = parse(&first.to_text());
        assert_eq!(first, second, "{}", text);
    }
}

#[test]
fn changed_params_are_written_as_they_are() {
    let mut url = parse("http://h/search?q=1");
    url.query_params.push(param("page", "2"));
    url.query_params[0].value = "rust".to_string();
    assert_eq!(url.to_text(), "http://h:80/search?q=rust&page=2");
    let copy = url.clone();
    assert_eq!(copy, url);
}

#[test]
fn characters_outside_ascii() {
    let url = parse("http://exämple.com/päth?ключ=значение");
    assert_eq!(url.host, "exämple.com");
    assert_eq!(url.paths, vec!["päth".to_string()]);
    assert_eq!(url.query_params, vec![param("ключ", "значение")]);
}

#[test]
fn one_segment_and_one_parameter() {
    let url = parse("https://behemehal.org/test?qtest=123");
    assert_eq!(url.is_https, true);
    assert_eq!(url.host, "behemehal.org".to_string());
    assert_eq!(url.query_params.len(), 1);
    assert_eq!(url.query_params[0].name, "qtest".to_string());
    assert_eq!(url.query_params[0].value, "123".to_string());
    assert_eq!(url.port, 443);
    assert_eq!(url.paths.len(), 1);
    assert_eq!(url.paths[0], "test".to_string());
}
