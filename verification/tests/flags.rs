use fanwatch::c_enum::EnumValues;
use fanwatch::events::FanEvents;
use fanwatch::flags::{Opt, Scope, DEFAULT_EVENTS};

fn given(recursive: bool, mount: bool, filesystem: bool) -> Opt {
    Opt {
        events: None,
        namespace: None,
        recursive,
        mount,
        filesystem,
        paths: vec![b"/a/b".to_vec()],
    }
}

#[test]
fn default_events_are_set_where_none_are_named() {
    let opt = Opt::from_args_with_default(given(false, false, false));
    assert_eq!(
        opt.events.as_deref(),
        Some(
            "FAN_ACCESS,FAN_MODIFY,FAN_CLOSE_WRITE,FAN_CLOSE_NOWRITE,FAN_OPEN,FAN_ONDIR,\
             FAN_EVENT_ON_CHILD"
        )
    );
    assert_eq!(opt.events.as_deref(), Some(DEFAULT_EVENTS));
}

#[test]
fn named_events_are_kept() {
    let mut named = given(false, false, false);
    named.events = Some("FAN_OPEN".to_string());
    named.namespace = Some(12);
    let opt = Opt::from_args_with_default(named);
    assert_eq!(opt.events.as_deref(), Some("FAN_OPEN"));
    assert_eq!(opt.namespace, Some(12));
    assert_eq!(opt.paths, vec![b"/a/b".to_vec()]);
    let mut empty = given(false, false, false);
    empty.events = Some(String::new());
    assert_eq!(Opt::from_args_with_default(empty).events.as_deref(), Some(""));
}

#[test]
fn default_events_are_a_valid_mask() {
    let mask = FanEvents::values().parse_mask(DEFAULT_EVENTS).unwrap();
    assert_eq!(mask, 0x1 | 0x2 | 0x8 | 0x10 | 0x20 | 0x4000_0000 | 0x0800_0000);
}

#[test]
fn the_scopes_imply_each_other() {
    let cases = [
        ((false, false, false), (false, false, false), Scope::Inode),
        ((true, false, false), (true, true, false), Scope::Mount),
        ((false, true, false), (true, true, false), Scope::Mount),
        ((true, true, false), (true, true, false), Scope::Mount),
        ((false, false, true), (true, true, true), Scope::Filesystem),
        ((true, false, true), (true, true, true), Scope::Filesystem),
        ((false, true, true), (true, true, true), Scope::Filesystem),
        ((true, true, true), (true, true, true), Scope::Filesystem),
    ];
    for ((recursive, mount, filesystem), expected, scope) in cases {
        let opt = Opt::from_args_with_default(given(recursive, mount, filesystem));
        assert_eq!((opt.recursive, opt.mount, opt.filesystem), expected);
        assert_eq!(opt.scope(), scope);
    }
}

#[test]
fn paths_are_resolved_without_a_namespace() {
    let mut opt = given(true, true, false);
    assert!(opt.resolves_paths());
    opt.namespace = Some(1);
    assert!(!opt.resolves_paths());
}

#[test]
fn the_filter_admits_what_lies_below_a_watched_path() {
    let opt = given(true, true, false);
    assert!(opt.admits(b"/a/b/c.txt"));
    assert!(opt.admits(b"/a/b"));
    assert!(!opt.admits(b"/a/x.txt"));
    assert!(!opt.admits(b"/a/bc"));
    assert!(!opt.admits(b"/a"));
    assert!(!opt.admits(b"/"));
}

#[test]
fn the_filter_admits_what_lies_below_any_watched_path() {
    let mut opt = given(true, true, false);
    opt.paths = vec![b"/a/b".to_vec(), b"/srv".to_vec()];
    assert!(opt.admits(b"/a/b/c.txt"));
    assert!(opt.admits(b"/srv/www/index.html"));
    assert!(!opt.admits(b"/a/x.txt"));
    assert!(!opt.admits(b"/srv2"));
    opt.paths = vec![];
    assert!(!opt.admits(b"/a/b/c.txt"));
    opt.paths = vec![b"/".to_vec()];
    assert!(opt.admits(b"/a/x.txt"));
}

#[test]
fn nothing_is_filtered_unless_the_watch_is_recursive_and_local() {
    let opt = given(false, false, false);
    assert!(opt.admits(b"/a/x.txt"));
    let mut opt = given(true, true, false);
    opt.namespace = Some(7);
    assert!(opt.admits(b"/a/x.txt"));
}
