use olivia::db::Error;
use olivia::ids::{EventId, Path};

#[test]
fn parse_simple_id_round_trips() {
    let id = EventId::parse("/test/db/e1.occur").unwrap();
    assert_eq!(id.to_text(), "/test/db/e1.occur");
    assert_eq!(id.segments().len(), 3);
    assert_eq!(id.segments()[0], "test");
    assert_eq!(id.segments()[1], "db");
    assert_eq!(id.segments()[2], "e1");
    assert_eq!(id.kind().as_str(), "occur");
}

#[test]
fn parse_one_segment_id() {
    let id = EventId::parse("/X.win").unwrap();
    assert_eq!(id.to_text(), "/X.win");
    assert_eq!(id.segments().len(), 1);
}

#[test]
fn parse_accepts_path_safe_characters() {
    let id = EventId::parse("/a-b_C9/x.vs").unwrap();
    assert_eq!(id.to_text(), "/a-b_C9/x.vs");
}

#[test]
fn parse_rejects_malformed_text() {
    for text in [
        "",
        "/",
        "a/b.occur",
        "/a/b",
        "/a//b.occur",
        "/a/.occur",
        "/a/b.",
        "/a/b.occur.x",
        "/a b.occur",
        "/a/b.occur/",
        ".occur",
        "/.occur",
    ] {
        match EventId::parse(text) {
            Err(Error::InvalidFormat) => {}
            other => panic!("{:?} parsed as {:?}", text, other),
        }
    }
}

#[test]
fn parse_built_id_round_trips() {
    let id = EventId::new(
        vec!["sports".to_owned(), "match".to_owned()],
        "winner".to_owned(),
    )
    .unwrap();
    let text = id.to_text();
    assert_eq!(text, "/sports/match.winner");
    let back = EventId::parse(&text).unwrap();
    assert_eq!(back, id);
}

#[test]
fn id_equality_is_by_canonical_value() {
    let a = EventId::parse("/a/b.occur").unwrap();
    let b = EventId::parse("/a/b.occur").unwrap();
    let c = EventId::parse("/a/b.win").unwrap();
    assert_eq!(a, b);
    assert_ne!(a, c);
}

#[test]
fn node_path_strips_the_kind() {
    let id = EventId::parse("/a/b/c.occur").unwrap();
    let path = id.node_path();
    assert_eq!(path.to_text(), "/a/b/c");
}

#[test]
fn path_parse_round_trips() {
    let root = Path::parse("/").unwrap();
    assert_eq!(root.to_text(), "/");
    assert_eq!(root.segments().len(), 0);
    let p = Path::parse("/a/b").unwrap();
    assert_eq!(p.to_text(), "/a/b");
    assert_eq!(p.segments().len(), 2);
}

#[test]
fn path_parse_rejects_malformed_text() {
    for text in ["", "a/b", "/a/", "//", "/a//b", "/a.b"] {
        match Path::parse(text) {
            Err(Error::InvalidFormat) => {}
            other => panic!("{:?} parsed as {:?}", text, other),
        }
    }
}

#[test]
fn prefix_and_strip_round_trip() {
    let id = EventId::parse("/b/c.occur").unwrap();
    let prefix = Path::parse("/top/a").unwrap();
    let moved = id.clone().prefix_path(&prefix);
    assert_eq!(moved.to_text(), "/top/a/b/c.occur");
    let back = moved.strip_prefix_path(&prefix);
    assert_eq!(back, id);
}

#[test]
fn strip_foreign_prefix_leaves_id_alone() {
    let id = EventId::parse("/b/c.occur").unwrap();
    let other = Path::parse("/x").unwrap();
    let unchanged = id.clone().strip_prefix_path(&other);
    assert_eq!(unchanged, id);
}
