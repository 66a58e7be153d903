use feedproxy::duration::format_duration;
use feedproxy::feed::{first_uncached, transform_feed, FeedError};
use feedproxy::service::{record_from_tool, route, status_code, ErrorKind, Route, ToolMetadata};
use feedproxy::store::VideoStore;
use feedproxy::video::{is_short_video, video_url, VideoRecord};
use feedproxy::xml::{text_of, text_of_child, XmlElement, XmlNode};

fn element(name: &str, children: Vec<XmlNode>) -> XmlElement {
    XmlElement {
        prefix: None,
        namespace: None,
        namespaces: None,
        name: name.to_string(),
        attributes: vec![],
        children,
    }
}

fn text_element(name: &str, text: &str) -> XmlNode {
    XmlNode::Element(element(name, vec![XmlNode::Text(text.to_string())]))
}

fn entry(id: &str, title: &str) -> XmlNode {
    XmlNode::Element(element(
        "entry",
        vec![
            text_element("id", &format!("yt:video:{id}")),
            text_element("videoId", id),
            text_element("title", title),
            text_element("published", "2024-01-01T00:00:00+00:00"),
            text_element("updated", "2024-01-02T00:00:00+00:00"),
        ],
    ))
}

fn feed(entries: Vec<XmlNode>) -> XmlElement {
    let mut children = vec![text_element("title", "Channel"), text_element("author", "Someone")];
    children.extend(entries);
    element("feed", children)
}

fn record(length: u64, is_short: bool) -> VideoRecord {
    VideoRecord { timestamp: 1_700_000_000, length, is_short }
}

fn three_entry_store() -> VideoStore {
    let mut store = VideoStore::new("state.json".to_string());
    store.insert("A".to_string(), record(30, true));
    store.insert("B".to_string(), record(200, false));
    store.insert("C".to_string(), record(45, true));
    store
}

fn three_entry_feed() -> XmlElement {
    feed(vec![entry("A", "Clip A"), entry("B", "Talk B"), entry("C", "Clip C")])
}

fn child_names(e: &XmlElement) -> Vec<String> {
    e.children
        .iter()
        .filter_map(|n| match n {
            XmlNode::Element(c) => Some(c.name.clone()),
            _ => None,
        })
        .collect()
}

#[test]
fn duration_under_a_minute() {
    assert_eq!(format_duration(0), "0s");
    assert_eq!(format_duration(59), "59s");
}

#[test]
fn duration_with_minutes() {
    assert_eq!(format_duration(60), "1:00s");
    assert_eq!(format_duration(125), "2:05s");
    assert_eq!(format_duration(3600), "60:00s");
    assert_eq!(format_duration(3671), "61:11s");
}

#[test]
fn classification_examples() {
    assert!(is_short_video(120, 9, 16));
    assert!(!is_short_video(200, 9, 16));
    assert!(!is_short_video(120, 16, 9));
    assert!(is_short_video(180, 10, 10));
    assert!(!is_short_video(181, 10, 10));
}

#[test]
fn record_from_metadata_classifies() {
    let r = VideoRecord::from_metadata(120, 9, 16, 42);
    assert_eq!(r, VideoRecord { timestamp: 42, length: 120, is_short: true });
    let r = VideoRecord::from_metadata(200, 9, 16, 42);
    assert!(!r.is_short);
}

#[test]
fn video_url_for_id() {
    assert_eq!(video_url("abc123"), "https://www.youtube.com/watch?v=abc123");
}

#[test]
fn store_insert_and_lookup() {
    let mut store = VideoStore::new("s.json".to_string());
    assert!(!store.needs_persist());
    assert_eq!(store.lookup("x"), None);
    store.insert("x".to_string(), record(10, true));
    assert!(store.needs_persist());
    assert_eq!(store.lookup("x"), Some(record(10, true)));
    assert!(store.contains("x"));
    assert!(!store.contains("y"));
    store.insert("x".to_string(), record(20, false));
    assert_eq!(store.lookup("x"), Some(record(20, false)));
    assert_eq!(store.len(), 1);
    store.mark_persisted();
    assert!(!store.needs_persist());
    assert_eq!(store.file(), "s.json");
}

#[test]
fn store_round_trip() {
    let store = three_entry_store();
    let saved = store.records();
    assert_eq!(saved.len(), 3);
    let loaded = VideoStore::from_records("state.json".to_string(), saved);
    assert!(!loaded.needs_persist());
    assert_eq!(loaded.len(), 3);
    for id in ["A", "B", "C"] {
        assert_eq!(loaded.lookup(id), store.lookup(id));
    }
}

#[test]
fn store_load_later_pair_wins() {
    let pairs = vec![
        ("v".to_string(), record(1, true)),
        ("w".to_string(), record(2, true)),
        ("v".to_string(), record(3, false)),
    ];
    let store = VideoStore::from_records("f".to_string(), pairs);
    assert_eq!(store.len(), 2);
    assert_eq!(store.lookup("v"), Some(record(3, false)));
}

#[test]
fn element_text_joins_text_and_cdata() {
    let e = element(
        "title",
        vec![
            XmlNode::Text("a".to_string()),
            XmlNode::Comment("skip".to_string()),
            XmlNode::CData("b".to_string()),
        ],
    );
    assert_eq!(text_of(&e), Some("ab".to_string()));
    assert_eq!(text_of(&element("title", vec![])), None);
    let parent = element("entry", vec![XmlNode::Element(e)]);
    assert_eq!(text_of_child(&parent, "title"), Some("ab".to_string()));
    assert_eq!(text_of_child(&parent, "videoId"), None);
}

#[test]
fn filtering_keeps_only_long_videos() {
    let store = three_entry_store();
    let out = transform_feed(three_entry_feed(), &store).unwrap();
    assert_eq!(child_names(&out), vec!["title", "author", "entry"]);
    let kept = match &out.children[2] {
        XmlNode::Element(e) => e,
        _ => panic!("entry expected"),
    };
    assert_eq!(text_of_child(kept, "videoId"), Some("B".to_string()));
    assert_eq!(text_of_child(kept, "title"), Some("Talk B (3:20s)".to_string()));
    assert_eq!(child_names(kept), vec!["id", "videoId", "title", "published"]);
    assert_eq!(text_of_child(&out, "title"), Some("Channel".to_string()));
}

#[test]
fn entries_move_after_other_children() {
    let mut store = VideoStore::new("s".to_string());
    store.insert("B".to_string(), record(65, false));
    let mut f = feed(vec![entry("B", "Talk")]);
    f.children.push(text_element("link", "x"));
    let out = transform_feed(f, &store).unwrap();
    assert_eq!(child_names(&out), vec!["title", "author", "link", "entry"]);
}

#[test]
fn transform_is_repeatable_without_fetching() {
    let store = three_entry_store();
    assert_eq!(first_uncached(&three_entry_feed(), &store), Ok(None));
    let first = transform_feed(three_entry_feed(), &store).unwrap();
    let second = transform_feed(three_entry_feed(), &store).unwrap();
    assert_eq!(first, second);
    assert_eq!(store.len(), 3);
}

#[test]
fn missing_video_id_aborts_transform() {
    let store = three_entry_store();
    let bad = XmlNode::Element(element("entry", vec![text_element("title", "No id")]));
    let f = feed(vec![entry("B", "Talk B"), bad, entry("A", "Clip A")]);
    assert_eq!(first_uncached(&f, &store), Err(FeedError::MissingVideoId));
    let f = feed(vec![
        entry("B", "Talk B"),
        XmlNode::Element(element("entry", vec![text_element("title", "No id")])),
    ]);
    assert_eq!(transform_feed(f, &store), Err(FeedError::MissingVideoId));
}

#[test]
fn missing_title_aborts_transform() {
    let store = three_entry_store();
    let bad = XmlNode::Element(element("entry", vec![text_element("videoId", "B")]));
    assert_eq!(transform_feed(feed(vec![bad]), &store), Err(FeedError::MissingTitle));
}

#[test]
fn uncached_entry_is_reported_once() {
    let mut store = three_entry_store();
    let make = || feed(vec![entry("B", "Talk B"), entry("D", "New"), entry("E", "Newer")]);
    let f = make();
    assert_eq!(first_uncached(&f, &store), Ok(Some("D".to_string())));
    assert_eq!(transform_feed(make(), &store), Err(FeedError::Uncached));
    store.insert("D".to_string(), record(100, false));
    assert_eq!(first_uncached(&f, &store), Ok(Some("E".to_string())));
    store.insert("E".to_string(), record(10, true));
    assert_eq!(first_uncached(&f, &store), Ok(None));
    let out = transform_feed(f, &store).unwrap();
    assert_eq!(child_names(&out), vec!["title", "author", "entry", "entry"]);
}

#[test]
fn missing_channel_id_is_a_client_error() {
    assert!(matches!(route("/www.youtube.com/feeds/videos.xml", None), Route::MissingChannel));
    assert_eq!(status_code(ErrorKind::Config), 400);
    assert_eq!(status_code(ErrorKind::Config), status_code(ErrorKind::Config));
}

#[test]
fn routing_by_path() {
    match route("/www.youtube.com/feeds/videos.xml", Some("UC1".to_string())) {
        Route::Feed(c) => assert_eq!(c, "UC1"),
        other => panic!("unexpected route {other:?}"),
    }
    assert!(matches!(route("/other", Some("UC1".to_string())), Route::NotFound));
    assert_eq!(status_code(ErrorKind::UpstreamFetch), 500);
    assert_eq!(status_code(ErrorKind::MalformedEntry), 500);
    assert_eq!(status_code(ErrorKind::Persistence), 500);
    assert_eq!(status_code(ErrorKind::Serialize), 500);
}

#[test]
fn tool_outcomes() {
    let m = ToolMetadata { duration: 120, width: 9, height: 16 };
    assert_eq!(record_from_tool(None, true, 7), Err(ErrorKind::ToolParse));
    assert_eq!(record_from_tool(Some(m), false, 7), Err(ErrorKind::ToolFailed));
    let r = record_from_tool(Some(m), true, 7).unwrap();
    assert_eq!(r, VideoRecord { timestamp: 7, length: 120, is_short: true });
    let long = ToolMetadata { duration: 600, width: 16, height: 9 };
    assert!(!record_from_tool(Some(long), true, 7).unwrap().is_short);
}

#[test]
fn failed_tool_run_without_output_is_a_tool_failure() {
    assert_eq!(record_from_tool(None, false, 7), Err(ErrorKind::ToolFailed));
}
