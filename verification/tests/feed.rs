use chrono::{DateTime, Local};
use crab_reader::date::{parse_date, select_date, Timestamp};
use crab_reader::feed::{Manager, Story, Subscription, TryFromError};
use crab_reader::source::{Channel, Item};

fn instant(text: &str) -> Timestamp {
    let date: DateTime<Local> = text.parse().expect("a valid date");
    Timestamp { secs: date.timestamp(), nanos: date.timestamp_subsec_nanos() }
}

fn item(title: &str, link: &str, description: &str, pub_date: &str) -> Item {
    let mut item = Item::new();
    item.set_title(title.to_string());
    item.set_link(link.to_string());
    item.set_description(description.to_string());
    item.set_pub_date(pub_date.to_string());
    item
}

fn channel(title: &str, items: Vec<Item>) -> Channel {
    let mut channel = Channel::new();
    channel.set_title(title);
    channel.set_items(items);
    channel
}

#[test]
fn it_ingests_channels() {
    let mut item = Item::new();
    item.set_title("Test Item".to_string());
    item.set_link("http://example.com".to_string());
    item.set_description("Test Content".to_string());
    item.set_pub_date("Wed, 15 Mar 2023 04:00:00 -0000".to_string());

    let mut channel = Channel::new();
    channel.set_title("Test Channel");
    channel.set_items(vec![item]);

    let mut manager = Manager::default();
    manager.ingest("http://example.com/feed", &channel).unwrap();

    let subscriptions = manager.subscriptions();
    assert_eq!(subscriptions.len(), 1);
    let subscription = &subscriptions[0];
    assert_eq!(subscription.name, "Test Channel");
    assert_eq!(subscription.url, "http://example.com/feed");

    let stories = manager.stories();
    assert_eq!(stories.len(), 1);
    let story = &stories[0];
    assert_eq!(story.title, "Test Item");
    assert_eq!(story.link, "http://example.com");
    assert_eq!(story.content, "Test Content");
    assert_eq!(story.pub_date, instant("2023-03-15T04:00:00+00:00"));
}

#[test]
fn it_converts_item_to_story() {
    let mut item = Item::new();
    assert_eq!(Story::try_from(&item), Err(TryFromError::MissingTitle));
    item.set_title("Test Item".to_string());
    assert_eq!(Story::try_from(&item), Err(TryFromError::MissingLink));
    item.set_link("http://example.com".to_string());
    assert_eq!(Story::try_from(&item), Err(TryFromError::MissingContent));
    item.set_description("Test Description".to_string());
    assert_eq!(Story::try_from(&item), Err(TryFromError::MissingPubDate));
    item.set_pub_date("Wed, 15 Mar 2023 04:00:00 -0000".to_string());

    let story = Story::try_from(&item).unwrap();
    assert_eq!(story.title, "Test Item");
    assert_eq!(story.link, "http://example.com");
    assert_eq!(story.content, "Test Description");
    assert_eq!(story.pub_date, instant("2023-03-15T04:00:00+00:00"));
}

#[test]
fn it_parses_date_formats() {
    assert!(parse_date("2023-03-15T04:00:00+00:00").is_ok());
    assert!(parse_date("Wed, 15 Mar 2023 04:00:00 -0000").is_ok());
    assert_eq!(parse_date("not a date"), Err(TryFromError::ParsePubDate));
}

#[test]
fn dates_of_each_form_give_their_instant() {
    let expected = Timestamp { secs: 1678852800, nanos: 0 };
    assert_eq!(parse_date("2023-03-15T04:00:00+00:00"), Ok(expected));
    assert_eq!(parse_date("2023-03-15 04:00:00Z"), Ok(expected));
    assert_eq!(parse_date("Wed, 15 Mar 2023 04:00:00 -0000"), Ok(expected));
    assert_eq!(parse_date("Wed, 15 Mar 2023 06:00:00 +0200"), Ok(expected));
    assert_eq!(parse_date("2023-03-15T04:00:00.5Z"), Ok(Timestamp { secs: 1678852800, nanos: 500_000_000 }));
}

#[test]
fn a_bare_date_is_taken_at_local_midnight() {
    let utc_midnight: i64 = 1678838400;
    let t = parse_date("2023-03-15").unwrap();
    assert_eq!(t.nanos, 0);
    assert!(utc_midnight - 86400 < t.secs && t.secs < utc_midnight + 86400);
    assert_eq!(parse_date("2023-02-30"), Err(TryFromError::ParsePubDate));
    assert_eq!(parse_date(""), Err(TryFromError::ParsePubDate));
}

#[test]
fn the_first_form_found_wins() {
    let a = Timestamp { secs: 1, nanos: 0 };
    let b = Timestamp { secs: 2, nanos: 0 };
    let c = Timestamp { secs: 3, nanos: 0 };
    let d = Timestamp { secs: 4, nanos: 0 };
    assert_eq!(select_date(Some(a), Some(b), Some(c), Some(d)), Ok(a));
    assert_eq!(select_date(None, Some(b), Some(c), Some(d)), Ok(b));
    assert_eq!(select_date(None, None, Some(c), Some(d)), Ok(c));
    assert_eq!(select_date(None, None, None, Some(d)), Ok(d));
    assert_eq!(select_date(None, None, None, None), Err(TryFromError::ParsePubDate));
}

#[test]
fn timestamps_order_by_seconds_then_nanoseconds() {
    let a = Timestamp { secs: 10, nanos: 5 };
    assert!(a.later_than(&Timestamp { secs: 9, nanos: 999 }));
    assert!(a.later_than(&Timestamp { secs: 10, nanos: 4 }));
    assert!(!a.later_than(&a));
    assert!(!a.later_than(&Timestamp { secs: 11, nanos: 0 }));
}

#[test]
fn content_is_preferred_to_description_and_cleaned() {
    let mut it = item("T", "http://x/1", "the description", "2023-03-15T04:00:00Z");
    it.set_content("<p>kept</p><script>alert(1)</script>".to_string());
    let story = Story::try_from(&it).unwrap();
    assert_eq!(story.content, "<p>kept</p>");
    assert!(!story.starred);
    assert!(!story.read);
}

#[test]
fn a_bad_date_is_reported() {
    let it = item("T", "http://x/1", "d", "yesterday");
    assert_eq!(Story::from_item(&it), Err(TryFromError::ParsePubDate));
}

#[test]
fn existing_stories_are_not_replaced() {
    let mut manager = Manager::default();
    let first = channel("Feed", vec![item("Old title", "http://x/1", "a", "2023-03-15T04:00:00Z")]);
    manager.ingest("http://x/feed", &first).unwrap();
    let second = channel(
        "Feed",
        vec![
            item("New title", "http://x/1", "b", "2023-03-16T04:00:00Z"),
            item("Other", "http://x/2", "c", "2023-03-17T04:00:00Z"),
        ],
    );
    manager.ingest("http://elsewhere/feed", &second).unwrap();
    let subscriptions = manager.subscriptions();
    assert_eq!(subscriptions.len(), 1);
    assert_eq!(subscriptions[0].url, "http://x/feed");
    let stories = manager.stories();
    assert_eq!(stories.len(), 2);
    assert_eq!(stories[0].title, "Other");
    assert_eq!(stories[1].title, "Old title");
}

#[test]
fn ingesting_twice_changes_nothing() {
    let mut manager = Manager::default();
    let c = channel(
        "Feed",
        vec![
            item("A", "http://x/1", "a", "2023-03-15T04:00:00Z"),
            item("B", "http://x/2", "b", "2023-03-16T04:00:00Z"),
        ],
    );
    manager.ingest("http://x/feed", &c).unwrap();
    let before = (manager.subscriptions(), manager.stories());
    manager.ingest("http://x/feed", &c).unwrap();
    assert_eq!((manager.subscriptions(), manager.stories()), before);
}

#[test]
fn a_failed_item_keeps_what_came_before() {
    let mut manager = Manager::default();
    let c = channel(
        "Feed",
        vec![
            item("A", "http://x/1", "a", "2023-03-15T04:00:00Z"),
            item("B", "http://x/2", "b", "not a date"),
            item("C", "http://x/3", "c", "2023-03-17T04:00:00Z"),
        ],
    );
    match manager.ingest("http://x/feed", &c) {
        Err(crab_reader::feed::Error::Ingest(e)) => assert_eq!(e, TryFromError::ParsePubDate),
        other => panic!("unexpected outcome {:?}", other),
    }
    assert_eq!(manager.subscriptions().len(), 1);
    let stories = manager.stories();
    assert_eq!(stories.len(), 1);
    assert_eq!(stories[0].title, "A");

    let mut empty = Manager::default();
    let c = channel("Broken", vec![Item::new()]);
    assert!(empty.ingest("http://y/feed", &c).is_err());
    let subscriptions = empty.subscriptions();
    assert_eq!(subscriptions.len(), 1);
    assert_eq!(subscriptions[0].name, "Broken");
    assert!(empty.stories().is_empty());
}

#[test]
fn subscriptions_come_in_order_of_name() {
    let mut manager = Manager::default();
    for name in ["Zeta", "alpha", "Alpha", "Éclair", "Beta"] {
        manager.ingest("http://x/feed", &channel(name, vec![])).unwrap();
    }
    let names: Vec<String> = manager.subscriptions().into_iter().map(|s| s.name).collect();
    assert_eq!(names, vec!["Alpha", "Beta", "Zeta", "alpha", "Éclair"]);
}

#[test]
fn stories_come_newest_first() {
    let mut manager = Manager::default();
    let a = channel(
        "A",
        vec![
            item("a1", "http://a/1", "x", "2023-03-10T00:00:00Z"),
            item("a2", "http://a/2", "x", "2023-03-20T00:00:00Z"),
        ],
    );
    let b = channel(
        "B",
        vec![
            item("b1", "http://b/1", "x", "2023-03-15T00:00:00Z"),
            item("b2", "http://b/2", "x", "2023-03-25T00:00:00Z"),
        ],
    );
    manager.ingest("http://a", &a).unwrap();
    manager.ingest("http://b", &b).unwrap();
    let titles: Vec<String> = manager.stories().into_iter().map(|s| s.title).collect();
    assert_eq!(titles, vec!["b2", "a2", "b1", "a1"]);
}

#[test]
fn loaded_entries_keep_the_later_duplicate() {
    let story = Story::try_from(&item("A", "http://x/1", "a", "2023-03-15T04:00:00Z")).unwrap();
    let mut later = story.clone();
    later.title = "A again".to_string();
    let sub = Subscription::from_entries(
        "Feed".to_string(),
        "http://x/feed".to_string(),
        vec![("http://x/1".to_string(), story), ("http://x/1".to_string(), later)],
    );
    assert_eq!(sub.entries().len(), 1);
    assert_eq!(sub.entries()[0].1.title, "A again");
    let other = Subscription::from_entries("Other".to_string(), "u".to_string(), vec![]);
    let manager = Manager::from_entries(
        std::path::PathBuf::from("/tmp/crab"),
        vec![("Feed".to_string(), sub.duplicate()), ("Other".to_string(), other), ("Feed".to_string(), sub)],
    );
    assert_eq!(manager.entries().len(), 2);
    assert_eq!(manager.directory(), &std::path::PathBuf::from("/tmp/crab"));
    assert_eq!(manager.stories().len(), 1);
}

#[test]
fn a_new_manager_is_empty() {
    let manager = Manager::default();
    assert!(manager.subscriptions().is_empty());
    assert!(manager.stories().is_empty());
    assert_eq!(manager.directory(), &std::path::PathBuf::new());
}

#[test]
fn each_reason_has_its_message() {
    assert_eq!(TryFromError::MissingTitle.message(), "missing title");
    assert_eq!(TryFromError::MissingLink.message(), "missing link");
    assert_eq!(TryFromError::MissingContent.message(), "missing content");
    assert_eq!(TryFromError::MissingPubDate.message(), "missing pub date");
    assert_eq!(TryFromError::ParsePubDate.message(), "invalid pub date");
}

#[test]
fn ingested_entries_are_keyed_by_name_and_link() {
    let mut manager = Manager::default();
    let first = channel(
        "Feed",
        vec![
            item("A", "http://x/1", "a", "2023-03-15T04:00:00Z"),
            item("A again", "http://x/1", "a", "2023-03-17T04:00:00Z"),
            item("B", "http://x/2", "b", "2023-03-16T04:00:00Z"),
        ],
    );
    let second = channel("Other", vec![item("C", "http://y/1", "c", "2023-03-18T04:00:00Z")]);
    manager.ingest("http://x/feed", &first).unwrap();
    manager.ingest("http://y/feed", &second).unwrap();
    manager.ingest("http://z/feed", &first).unwrap();

    let entries = manager.entries();
    assert_eq!(entries.len(), 2);
    for (key, subscription) in entries {
        assert_eq!(key, &subscription.name);
        for (link, story) in subscription.entries() {
            assert_eq!(link, &story.link);
        }
    }
    assert_eq!(manager.stories().len(), 3);
}
