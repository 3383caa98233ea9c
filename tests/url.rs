use etherscan::url::URLBuilder;

#[test]
fn test_set_host() {
    let mut ub = URLBuilder::new();
    ub.set_host("localhost");
    assert_eq!("localhost", ub.host());
}

#[test]
fn test_set_protocol() {
    let mut ub = URLBuilder::new();
    ub.set_protocol("https");
    assert_eq!("https", ub.protocol());
}

#[test]
fn test_set_port() {
    let mut ub = URLBuilder::new();
    ub.set_port(8000);
    assert_eq!(8000, ub.port());
}

#[test]
fn create_google_url() {
    let mut ub = URLBuilder::new();
    ub.set_protocol("http")
        .set_host("www.google.com")
        .set_port(80);
    let url = ub.build();
    assert_eq!("http://www.google.com:80", url);
}

#[test]
fn create_url_without_port() {
    let mut ub = URLBuilder::new();
    ub.set_protocol("http").set_host("google.com");
    let url = ub.build();
    assert_eq!("http://google.com", url)
}

#[test]
fn create_url_without_port_and_params() {
    let mut ub = URLBuilder::new();
    ub.set_protocol("http")
        .set_host("google.com")
        .add_param("gcookie", "0xcafe");
    let url = ub.build();
    assert_eq!("http://google.com?gcookie=0xcafe&", url)
}

#[test]
fn create_url_with_params() {
    let mut ub = URLBuilder::new();
    ub.set_protocol("http")
        .set_host("localhost")
        .set_port(8000)
        .add_param("first", "1")
        .add_param("second", "2")
        .add_param("third", "3");

    let url = ub.build();
    assert!(url.contains("first=1"));
    assert!(url.contains("second=2"));
    assert!(url.contains("third=3"));
}

#[test]
fn empty_builder_renders_bare_separator() {
    let ub = URLBuilder::new();
    assert_eq!("://", ub.build());
    assert_eq!("", ub.host());
    assert_eq!("", ub.protocol());
    assert_eq!(0, ub.port());
}

#[test]
fn build_twice_gives_same_url() {
    let mut ub = URLBuilder::new();
    ub.set_protocol("https")
        .set_host("example.org")
        .set_port(443)
        .add_param("a", "1")
        .add_param("b", "2");
    let first = ub.build();
    let second = ub.build();
    assert_eq!(first, second);
    assert_eq!("https://example.org:443?a=1&b=2&", first);
}

#[test]
fn port_segment_only_for_nonzero_port() {
    let mut ub = URLBuilder::new();
    ub.set_protocol("http").set_host("h");
    ub.set_port(0);
    assert_eq!("http://h", ub.build());
    ub.set_port(1);
    assert_eq!("http://h:1", ub.build());
    ub.set_port(65535);
    assert_eq!("http://h:65535", ub.build());
    ub.set_port(10);
    assert_eq!("http://h:10", ub.build());
}

#[test]
fn query_segment_only_with_params() {
    let mut ub = URLBuilder::new();
    ub.set_protocol("http").set_host("h").set_port(8080);
    assert_eq!("http://h:8080", ub.build());
    ub.add_param("k", "v");
    assert_eq!("http://h:8080?k=v&", ub.build());
}

#[test]
fn add_param_overwrites_existing_key() {
    let mut ub = URLBuilder::new();
    ub.set_protocol("http")
        .set_host("h")
        .add_param("x", "1")
        .add_param("y", "2")
        .add_param("x", "3");
    let url = ub.build();
    assert_eq!("http://h?x=3&y=2&", url);
    assert!(!url.contains("x=1"));
}

#[test]
fn values_are_not_escaped() {
    let mut ub = URLBuilder::new();
    ub.set_protocol("http").set_host("h").add_param("q", "a&b#c");
    assert_eq!("http://h?q=a&b#c&", ub.build());
}

#[test]
fn setters_overwrite() {
    let mut ub = URLBuilder::new();
    ub.set_protocol("http").set_host("a").set_port(1);
    ub.set_protocol("ftp").set_host("b").set_port(2);
    assert_eq!("ftp", ub.protocol());
    assert_eq!("b", ub.host());
    assert_eq!(2, ub.port());
    assert_eq!("ftp://b:2", ub.build());
}

#[test]
fn params_render_in_key_order() {
    let mut ub = URLBuilder::new();
    ub.set_protocol("http")
        .set_host("h")
        .add_param("zeta", "1")
        .add_param("alpha", "2")
        .add_param("mid", "3")
        .add_param("al", "4");
    assert_eq!("http://h?al=4&alpha=2&mid=3&zeta=1&", ub.build());
}

#[test]
fn insertion_order_does_not_change_url() {
    let mut first = URLBuilder::new();
    first.add_param("a", "1").add_param("b", "2");
    let mut second = URLBuilder::new();
    second.add_param("b", "2").add_param("a", "1");
    assert_eq!(first.build(), second.build());
    assert_eq!("://?a=1&b=2&", first.build());
}

#[test]
fn keys_compare_by_code_point() {
    let mut ub = URLBuilder::new();
    ub.add_param("b", "1").add_param("B", "2").add_param("\u{e9}", "3").add_param("", "4");
    assert_eq!("://?=4&B=2&b=1&\u{e9}=3&", ub.build());
}
