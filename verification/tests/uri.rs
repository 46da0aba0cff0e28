use pathetic::{uri, ReferenceParseError, Uri};

#[test]
fn it_works() {
    let uri = Uri::default().with_path_segments_mut(|p| p.push("foo"));

    assert_eq!("/foo", uri.as_str());

    let uri = Uri::new("../../../foo.html?lorem=ipsum").unwrap();

    assert_eq!("/foo.html?lorem=ipsum", uri.as_str());

    let uri = uri.with_query_pairs_mut(|q| q.clear().append_pair("foo", "bar & baz"));

    assert_eq!("/foo.html?foo=bar+%26+baz", uri.as_str());

    let uri = Uri::default().with_path_segments_mut(|p| p.extend(&["foo", "bar", "baz"]));

    assert_eq!("/foo/bar/baz", uri.as_str());

    let uri = uri.join("/baz").unwrap();

    assert_eq!("/baz", uri.as_str());

    let uri = uri.join("?foo=bar").unwrap();

    assert_eq!("/baz?foo=bar", uri.as_str());

    let uri = uri.with_path_segments_mut(|p| p.clear());

    assert_eq!("/?foo=bar", uri.as_str());

    let uri = Uri::default()
        .with_path_segments_mut(|p| p.extend(&["foo", "bar"]))
        .with_query_pairs_mut(|q| q.append_pair("foo", "bar"))
        .with_fragment(Some("baz"));

    assert_eq!("/foo/bar?foo=bar#baz", uri.as_str());

    let uri = Uri::default().with_path("/a/b/c/d/e/f/g");

    let uri = uri.join("../../../../..").unwrap();

    assert_eq!("/a/", uri.as_str());
}

#[test]
fn plain_path_parses_to_itself() {
    let u = Uri::new("/plain/path").unwrap();
    assert_eq!("/plain/path", u.path());
    assert_eq!(None, u.query());
    assert_eq!(None, u.fragment());
}

#[test]
fn splitting_precedence() {
    let u = Uri::new("/a?b#c?d").unwrap();
    assert_eq!("/a", u.path());
    assert_eq!(Some("b"), u.query());
    assert_eq!(Some("c?d"), u.fragment());
}

#[test]
fn default_is_root() {
    assert_eq!("/", Uri::default().as_str());
    assert_eq!("/", uri().as_str());
}

#[test]
fn round_trip() {
    let r = Uri::new("/x/y?q=1#frag").unwrap();
    assert_eq!(r, Uri::new(&r.as_str()).unwrap());
    let r = Uri::new("/a%20b?").unwrap();
    assert_eq!(r, Uri::new(&r.as_str()).unwrap());
    let r = Uri::new("/#").unwrap();
    assert_eq!(r, Uri::new(&r.as_str()).unwrap());
}

#[test]
fn over_ascension_stops_at_root() {
    let base = Uri::new("/a/b/c/d/e/f/g").unwrap();
    assert_eq!("/a/", base.join("../../../../..").unwrap().as_str());
    assert_eq!("/x", Uri::new("/a").unwrap().join("../../x").unwrap().as_str());
}

#[test]
fn extending_cleared_path_matches_direct_construction() {
    let built = Uri::default().with_path_segments_mut(|p| p.extend(&["foo", "bar"]));
    assert_eq!(Uri::new("/foo/bar").unwrap(), built);
}

#[test]
fn query_pair_form_encoding() {
    let u = Uri::default().with_query_pairs_mut(|q| q.append_pair("foo", "bar & baz"));
    assert_eq!("/?foo=bar+%26+baz", u.as_str());
}

#[test]
fn cleared_path_is_root_slash() {
    let u = Uri::new("/a/b?q#f").unwrap().with_path_segments_mut(|p| p.clear());
    assert_eq!("/", u.path());
    assert_eq!("/?q#f", u.as_str());
}

#[test]
fn query_only_join_keeps_path() {
    let base = Uri::new("/base/path?old#frag").unwrap();
    let u = base.join("?foo=bar").unwrap();
    assert_eq!("/base/path", u.path());
    assert_eq!(Some("foo=bar"), u.query());
    assert_eq!(None, u.fragment());
    assert_eq!("/base/path?foo=bar", u.as_str());
}

#[test]
fn empty_join_keeps_path_and_query() {
    let base = Uri::new("/a?q#f").unwrap();
    assert_eq!("/a?q", base.join("").unwrap().as_str());
}

#[test]
fn relative_join_merges() {
    let base = Uri::new("/a/b/c").unwrap();
    assert_eq!("/a/b/d/e", base.join("d/e").unwrap().as_str());
    assert_eq!("/a/d", base.join("../d").unwrap().as_str());
}

#[test]
fn dot_segments_are_removed() {
    assert_eq!("/a/c", Uri::new("/a/./b/../c").unwrap().as_str());
    assert_eq!("/a/b/", Uri::new("/a/b/.").unwrap().as_str());
    assert_eq!("/foo.html", Uri::new("../../../foo.html").unwrap().as_str());
}

#[test]
fn malformed_percent_escape_is_rejected() {
    assert_eq!(Err(ReferenceParseError), Uri::new("/a%zz"));
    assert_eq!(Err(ReferenceParseError), Uri::new("%4"));
    assert_eq!(Err(ReferenceParseError), Uri::new("/ok").unwrap().join("?a=%x"));
    assert!(Uri::new("/a%4F").is_ok());
}

#[test]
fn empty_components_are_present_not_absent() {
    let u = Uri::new("/p?").unwrap();
    assert_eq!(Some(""), u.query());
    assert_eq!(None, u.fragment());
    let u = Uri::new("/p#").unwrap();
    assert_eq!(None, u.query());
    assert_eq!(Some(""), u.fragment());
    assert_eq!("/", Uri::new("").unwrap().as_str());
}

#[test]
fn setters_escape_delimiters() {
    let mut u = Uri::default();
    u.set_path("/a?b#c");
    assert_eq!("/a%3Fb%23c", u.path());
    u.set_query(Some("a#b"));
    assert_eq!(Some("a%23b"), u.query());
    u.set_fragment(Some("frag"));
    assert_eq!("/a%3Fb%23c?a%23b#frag", u.as_str());
    u.set_query(None);
    assert_eq!("/a%3Fb%23c#frag", u.as_str());
}

#[test]
fn set_path_supplies_leading_slash() {
    let u = Uri::default().with_path("relative");
    assert_eq!("/relative", u.path());
    assert_eq!("/", Uri::default().with_path("").path());
}

#[test]
fn set_path_encoding_is_idempotent() {
    let once = Uri::default().with_path("/a?b c");
    let twice = Uri::default().with_path(once.path());
    assert_eq!(once, twice);
    assert_eq!("/a%3Fb c", twice.path());
}

#[test]
fn pushed_segment_is_percent_encoded() {
    let u = Uri::default().with_path_segments_mut(|p| p.push("a/b%c"));
    assert_eq!("/a%2Fb%25c", u.as_str());
}

#[test]
fn pop_removes_last_segment() {
    let u = Uri::new("/a/b").unwrap().with_path_segments_mut(|p| p.pop());
    assert_eq!("/a", u.as_str());
    let u = Uri::new("/a").unwrap().with_path_segments_mut(|p| p.pop());
    assert_eq!("/", u.as_str());
    let u = Uri::default().with_path_segments_mut(|p| p.pop());
    assert_eq!("/", u.as_str());
}

#[test]
fn path_segments_reading() {
    let segs = Uri::new("/a/b/").unwrap().path_segments();
    assert_eq!(vec!["a".to_string(), "b".to_string(), "".to_string()], segs);
    assert_eq!(vec!["".to_string()], Uri::default().path_segments());
}

#[test]
fn query_pairs_reading_decodes() {
    let u = Uri::new("/?a=1+2&b=%26&c&&d=x%FFy").unwrap();
    let pairs = u.query_pairs();
    assert_eq!(4, pairs.len());
    assert_eq!(("a".to_string(), "1 2".to_string()), pairs[0]);
    assert_eq!(("b".to_string(), "&".to_string()), pairs[1]);
    assert_eq!(("c".to_string(), "".to_string()), pairs[2]);
    assert_eq!(("d".to_string(), "x%FFy".to_string()), pairs[3]);
    assert_eq!(0, Uri::default().query_pairs().len());
}

#[test]
fn appending_keeps_existing_pairs() {
    let u = Uri::new("/?a=1").unwrap().with_query_pairs_mut(|q| q.append_pair("b", "2"));
    assert_eq!("/?a=1&b=2", u.as_str());
}

#[test]
fn cleared_query_is_present_and_empty() {
    let u = Uri::new("/p?a=1").unwrap().with_query_pairs_mut(|q| q.clear());
    assert_eq!(Some(""), u.query());
    assert_eq!("/p?", u.as_str());
}
