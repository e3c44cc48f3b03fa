use mount::{parse_route, Mount, NoMatch, OriginalUrl, Request, Url, VirtualRoot};

fn segments(path: &str) -> Vec<String> {
    path.trim_start_matches('/').split('/').map(|s| s.to_string()).collect()
}

fn url(path: &str) -> Url {
    Url {
        scheme: "http".to_string(),
        username: None,
        password: None,
        host: "localhost".to_string(),
        port: 3000,
        path: segments(path),
        query: None,
        fragment: None,
    }
}

fn sample() -> Mount<&'static str> {
    let mut mount = Mount::new();
    mount.on("/hello", "hello");
    mount.on("/intercept", "intercepted");
    mount.on("/trailing_slashes///", "trailing slashes");
    mount.on("/trailing_slash/", "trailing slash");
    mount
}

/// Runs a request through the mount; the handler records the path it sees.
fn at(mount: &Mount<&'static str>, path: &str) -> Result<(&'static str, Vec<String>), NoMatch> {
    let mut req = Request::new(url(path));
    let before = req.clone();
    let entered = mount.enter(&mut req)?;
    let name = *mount.handler(&entered).unwrap();
    let seen = req.url.path.clone();
    mount.leave(&mut req, entered);
    assert_eq!(req, before);
    Ok((name, seen))
}

fn name_at(mount: &Mount<&'static str>, path: &str) -> &'static str {
    at(mount, path).unwrap().0
}

#[test]
fn should_mount_handlers() {
    let mount = sample();
    assert_eq!(name_at(&mount, "/hello"), "hello");
    assert_eq!(name_at(&mount, "/hello/and/more"), "hello");
    assert_eq!(name_at(&mount, "/intercept"), "intercepted");
    assert_eq!(name_at(&mount, "/intercept/with/more"), "intercepted");
}

#[test]
fn should_work_with_trailing_slashes() {
    let mount = sample();
    assert_eq!(name_at(&mount, "/hello/"), "hello");
    assert_eq!(name_at(&mount, "/hello//"), "hello");
    assert_eq!(name_at(&mount, "/hello//and/more"), "hello");

    assert_eq!(name_at(&mount, "/trailing_slash"), "trailing slash");
    assert_eq!(name_at(&mount, "/trailing_slash///"), "trailing slash");
    assert_eq!(name_at(&mount, "/trailing_slash/with_more"), "trailing slash");
    assert_eq!(name_at(&mount, "/trailing_slash//crazy/with_more"), "trailing slash");

    assert_eq!(name_at(&mount, "/trailing_slashes"), "trailing slashes");
    assert_eq!(name_at(&mount, "/trailing_slashes/"), "trailing slashes");
    assert_eq!(name_at(&mount, "/trailing_slashes///"), "trailing slashes");
    assert_eq!(name_at(&mount, "/trailing_slashes///with_extra/crazy"), "trailing slashes");
}

#[test]
fn should_throw_when_no_match_is_found() {
    let mount = sample();
    let mut req = Request::new(url("/notfound"));
    let before = req.clone();
    assert_eq!(mount.enter(&mut req).err(), Some(NoMatch));
    assert_eq!(req, before);
    assert_eq!(NoMatch.description(), "No Match");
}

#[test]
fn no_match_keeps_entries_of_an_enclosing_mount() {
    let mount = sample();
    let mut req = Request::new(url("/notfound"));
    req.original_url = Some(url("/outer/notfound"));
    req.virtual_root = Some(url("/outer/notfound"));
    let before = req.clone();
    assert!(mount.enter(&mut req).is_err());
    assert_eq!(req, before);
}

#[test]
fn empty_mount_matches_nothing() {
    let mount: Mount<u8> = Mount::new();
    let mut req = Request::new(url("/"));
    assert!(mount.enter(&mut req).is_err());
}

#[test]
fn deeper_route_wins_and_sees_the_rest() {
    let mut mount = Mount::new();
    mount.on("/hello", "H1");
    mount.on("/hello/world", "H2");
    assert_eq!(at(&mount, "/hello/world/extra").unwrap(), ("H2", vec!["extra".to_string()]));
    assert_eq!(at(&mount, "/hello/other").unwrap(), ("H1", vec!["other".to_string()]));
}

#[test]
fn registration_order_does_not_matter() {
    let mut mount = Mount::new();
    mount.on("/a/b/c", "deep");
    mount.on("/a", "shallow");
    assert_eq!(name_at(&mount, "/a/b/c/d"), "deep");
    assert_eq!(name_at(&mount, "/a/b"), "shallow");
    assert_eq!(name_at(&mount, "/a/b/x"), "shallow");
}

#[test]
fn trailing_empty_segments_select_the_same_route() {
    let mut mount = Mount::new();
    mount.on("/hello", "hello");
    mount.on("/hello/world", "world");
    for path in ["/hello", "/hello/", "/hello//", "/hello///"] {
        assert_eq!(name_at(&mount, path), "hello");
    }
    for path in ["/hello/world", "/hello/world/", "/hello/world//"] {
        assert_eq!(name_at(&mount, path), "world");
    }
}

#[test]
fn handler_sees_path_without_prefix() {
    let mut mount = Mount::new();
    mount.on("/a/b", "ab");
    assert_eq!(at(&mount, "/a/b/c/d").unwrap().1, vec!["c".to_string(), "d".to_string()]);
    assert_eq!(at(&mount, "/a/b").unwrap().1, Vec::<String>::new());
    assert_eq!(at(&mount, "/a/b/").unwrap().1, vec!["".to_string()]);
    assert_eq!(at(&mount, "/a/b//x/").unwrap().1, vec!["".to_string(), "x".to_string(), "".to_string()]);
}

#[test]
fn root_route_matches_everything() {
    let mut mount = Mount::new();
    mount.on("/", "root");
    mount.on("/x", "x");
    assert_eq!(at(&mount, "/").unwrap(), ("root", vec!["".to_string()]));
    assert_eq!(at(&mount, "/y/z").unwrap(), ("root", vec!["y".to_string(), "z".to_string()]));
    assert_eq!(name_at(&mount, "/x/z"), "x");
}

#[test]
fn last_registration_wins() {
    let mut mount = Mount::new();
    mount.on("/a", "first");
    mount.on("/b", "other");
    mount.on("/a/", "second");
    assert_eq!(name_at(&mount, "/a/z"), "second");
    assert_eq!(name_at(&mount, "/b"), "other");
    mount.mount("/b", "third");
    assert_eq!(name_at(&mount, "/b"), "third");
    assert_eq!(name_at(&mount, "/a"), "second");
}

#[test]
fn outer_mount_sets_and_removes_entries() {
    let mut mount = Mount::new();
    mount.on("/hello", "hello");
    let mut req = Request::new(url("/hello/there/"));
    let entered = mount.enter(&mut req).unwrap();
    assert_eq!(OriginalUrl::get(&req), Some(&url("/hello/there/")));
    assert_eq!(VirtualRoot::get(&req).unwrap().path, segments("/hello"));
    assert_eq!(req.url.path, segments("/there/"));
    assert_eq!(req.url.host, "localhost");
    mount.leave(&mut req, entered);
    assert!(OriginalUrl::get(&req).is_none());
    assert!(VirtualRoot::get(&req).is_none());
    assert_eq!(req.url, url("/hello/there/"));
}

#[test]
fn restoration_runs_whatever_the_handler_did() {
    let mut mount = Mount::new();
    mount.on("/hello", "hello");
    let mut req = Request::new(url("/hello/x"));
    let entered = mount.enter(&mut req).unwrap();
    // A handler that fails after changing the request.
    req.url.path = segments("/elsewhere/entirely");
    req.original_url = None;
    req.virtual_root = Some(url("/junk"));
    mount.leave(&mut req, entered);
    assert_eq!(req.url.path, segments("/hello/x"));
    assert_eq!(req.original_url, None);
    assert_eq!(req.virtual_root, None);
}

#[test]
fn nested_mounts_extend_and_restore_virtual_root() {
    let mut outer = Mount::new();
    outer.on("/a", "inner mount");
    let mut inner = Mount::new();
    inner.on("/b", "leaf");

    let mut req = Request::new(url("/a/b"));
    let before = req.clone();
    let e1 = outer.enter(&mut req).unwrap();
    assert_eq!(req.url.path, segments("/b"));
    let after_outer = req.clone();
    let e2 = inner.enter(&mut req).unwrap();
    assert_eq!(*inner.handler(&e2).unwrap(), "leaf");
    assert_eq!(req.url.path, Vec::<String>::new());
    assert_eq!(OriginalUrl::get(&req), Some(&url("/a/b")));
    // What the outer mount added, then what the inner mount added.
    assert_eq!(VirtualRoot::get(&req).unwrap().path, segments("/a/b"));
    inner.leave(&mut req, e2);
    assert_eq!(req, after_outer);
    assert_eq!(VirtualRoot::get(&req).unwrap().path, segments("/a"));
    outer.leave(&mut req, e1);
    assert_eq!(req, before);
    assert!(OriginalUrl::get(&req).is_none());
    assert!(VirtualRoot::get(&req).is_none());
}

#[test]
fn nested_mounts_at_their_own_roots() {
    let mut outer = Mount::new();
    outer.on("/a", "inner mount");
    let mut inner = Mount::new();
    inner.on("/", "leaf");
    let mut req = Request::new(url("/a/"));
    let e1 = outer.enter(&mut req).unwrap();
    let e2 = inner.enter(&mut req).unwrap();
    assert_eq!(VirtualRoot::get(&req).unwrap().path, segments("/a"));
    inner.leave(&mut req, e2);
    outer.leave(&mut req, e1);
    assert_eq!(req, Request::new(url("/a/")));
}

#[test]
fn inner_leave_saturates_when_the_entry_shrank() {
    let mut outer = Mount::new();
    outer.on("/a", "inner mount");
    let mut inner = Mount::new();
    inner.on("/b", "leaf");
    let mut req = Request::new(url("/a/b/c"));
    let e1 = outer.enter(&mut req).unwrap();
    let e2 = inner.enter(&mut req).unwrap();
    req.virtual_root.as_mut().unwrap().path = segments("/z");
    inner.leave(&mut req, e2);
    assert_eq!(VirtualRoot::get(&req).unwrap().path, Vec::<String>::new());
    outer.leave(&mut req, e1);
    assert!(VirtualRoot::get(&req).is_none());
}

#[test]
fn routes_are_split_on_slashes() {
    assert_eq!(parse_route("/foo/bar"), vec!["foo".to_string(), "bar".to_string()]);
    assert_eq!(parse_route("/foo/"), vec!["foo".to_string()]);
    assert_eq!(parse_route("foo"), vec!["foo".to_string()]);
    assert_eq!(parse_route("//a///b//"), vec!["a".to_string(), "b".to_string()]);
    assert_eq!(parse_route("/"), Vec::<String>::new());
    assert_eq!(parse_route(""), Vec::<String>::new());
    assert_eq!(parse_route("/é/ü"), vec!["é".to_string(), "ü".to_string()]);
}

#[test]
fn url_copy_keeps_every_part() {
    let mut u = url("/p/q");
    u.username = Some("user".to_string());
    u.password = Some("pw".to_string());
    u.query = Some("x=1".to_string());
    u.fragment = Some("top".to_string());
    assert_eq!(u.copy(), u);
}

#[test]
fn nested_mounts_record_only_the_consumed_prefixes() {
    let mut outer = Mount::new();
    outer.on("/hello", "inner mount");
    let mut inner = Mount::new();
    inner.on("/world", "leaf");
    let mut req = Request::new(url("/hello/world/extra/"));
    let e1 = outer.enter(&mut req).unwrap();
    assert_eq!(VirtualRoot::get(&req).unwrap().path, segments("/hello"));
    let e2 = inner.enter(&mut req).unwrap();
    assert_eq!(req.url.path, segments("/extra/"));
    assert_eq!(VirtualRoot::get(&req).unwrap().path, segments("/hello/world"));
    assert_eq!(OriginalUrl::get(&req), Some(&url("/hello/world/extra/")));
    inner.leave(&mut req, e2);
    assert_eq!(VirtualRoot::get(&req).unwrap().path, segments("/hello"));
    outer.leave(&mut req, e1);
    assert_eq!(req, Request::new(url("/hello/world/extra/")));
}

#[test]
fn inner_mount_extends_an_existing_virtual_root() {
    let mut mount = Mount::new();
    mount.on("/hello", "hello");
    let mut req = Request::new(url("/hello/there"));
    req.original_url = Some(url("/outer/hello/there"));
    req.virtual_root = Some(url("/outer"));
    let before = req.clone();
    let entered = mount.enter(&mut req).unwrap();
    assert_eq!(VirtualRoot::get(&req).unwrap().path, segments("/outer/hello"));
    assert_eq!(OriginalUrl::get(&req), Some(&url("/outer/hello/there")));
    assert_eq!(req.url.path, segments("/there"));
    mount.leave(&mut req, entered);
    assert_eq!(req, before);
}
