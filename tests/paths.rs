use static_server::path::{archive_key, child_key, normalize_path};

#[test]
fn root_path_names_index() {
    assert_eq!(normalize_path("/"), "/index.html");
}

#[test]
fn query_string_is_dropped() {
    assert_eq!(normalize_path("/style.css?v=2"), "/style.css");
    assert_eq!(normalize_path("/a?b?c"), "/a");
}

#[test]
fn directory_with_query_names_its_index() {
    assert_eq!(normalize_path("/docs/?page=1"), "/docs/index.html");
}

#[test]
fn plain_path_is_kept() {
    assert_eq!(normalize_path("/js/app.js"), "/js/app.js");
    assert_eq!(normalize_path(""), "");
    assert_eq!(normalize_path("?x"), "");
}

#[test]
fn non_ascii_path_is_cut_at_the_query() {
    assert_eq!(normalize_path("/caf\u{e9}/?q=\u{fc}"), "/caf\u{e9}/index.html");
}

#[test]
fn child_keys_are_slash_joined() {
    assert_eq!(child_key("", "index.html"), "/index.html");
    assert_eq!(child_key("/js", "app.js"), "/js/app.js");
}

#[test]
fn archive_keys_lose_the_leading_dot() {
    assert_eq!(archive_key("./index.html"), "/index.html");
    assert_eq!(archive_key("./css/site.css"), "/css/site.css");
    assert_eq!(archive_key("index.html"), "index.html");
    assert_eq!(archive_key(""), "");
}
