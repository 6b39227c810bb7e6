use crab_reader::feed::Subscription;
use crab_reader::layout::{menu_layout, MenuEntry, NativeItem};
use crab_reader::menu::{
    export_document, export_outlines, feed_urls, import_urls, MenuId, Outline, OutlineError, UnknownMenuId,
};
use crab_reader::text::{str_eq, str_lt};

const ALL: [MenuId; 11] = [
    MenuId::Preferences,
    MenuId::AddSubscription,
    MenuId::NextStory,
    MenuId::PrevStory,
    MenuId::ToggleRead,
    MenuId::ToggleFavorite,
    MenuId::MarkAllRead,
    MenuId::SaveOffline,
    MenuId::ViewBrowser,
    MenuId::ImportSubscriptions,
    MenuId::ExportSubscriptions,
];

#[test]
fn menu_ids_read_back() {
    for id in ALL {
        assert_eq!(MenuId::parse(id.as_str()), Ok(id));
        assert_eq!(id.to_string().parse::<MenuId>(), Ok(id));
    }
    assert_eq!(MenuId::AddSubscription.as_str(), "add_subscription");
    assert_eq!(MenuId::ExportSubscriptions.to_string(), "export_subscriptions");
}

#[test]
fn unknown_menu_ids_are_refused() {
    assert_eq!(MenuId::parse("AddSubscription"), Err(UnknownMenuId));
    assert_eq!(MenuId::parse(""), Err(UnknownMenuId));
    assert_eq!(MenuId::parse("preferences "), Err(UnknownMenuId));
}

#[test]
fn export_then_import_gives_the_urls() {
    let subs = vec![
        Subscription::from_entries("A".to_string(), "http://a/feed".to_string(), vec![]),
        Subscription::from_entries("B".to_string(), "http://b/feed".to_string(), vec![]),
    ];
    let outlines = export_outlines(&subs);
    assert_eq!(
        outlines[0],
        Outline {
            title: Some("A".to_string()),
            xml_url: Some("http://a/feed".to_string()),
            kind: Some("rss".to_string())
        }
    );
    assert_eq!(feed_urls(&outlines), vec!["http://a/feed", "http://b/feed"]);
}

#[test]
fn outlines_without_url_are_skipped() {
    let outlines = vec![
        Outline { title: Some("folder".to_string()), xml_url: None, kind: None },
        Outline { title: None, xml_url: Some("http://c/feed".to_string()), kind: None },
    ];
    assert_eq!(feed_urls(&outlines), vec!["http://c/feed"]);
}

#[test]
fn texts_compare_by_characters() {
    assert!(str_lt("abc", "abd"));
    assert!(str_lt("ab", "abc"));
    assert!(!str_lt("abc", "ab"));
    assert!(!str_lt("abc", "abc"));
    assert!(str_lt("Zeta", "alpha"));
    assert!(str_lt("z", "é"));
    assert!(str_eq("é", "é"));
    assert!(!str_eq("é", "e"));
    assert!(!str_eq("ab", "abc"));
    assert!(str_eq("", ""));
}

#[test]
fn an_export_document_reads_back() {
    let subs = vec![
        Subscription::from_entries("A".to_string(), "http://a/feed".to_string(), vec![]),
        Subscription::from_entries("B & C".to_string(), "http://b/feed?x=1&y=2".to_string(), vec![]),
    ];
    let date = "Mon, 01 Jan 2024 00:00:00 +0000";
    let text = export_document(&subs, date).expect("an export is written");
    assert!(text.starts_with("<opml version=\"2.0\">"));
    assert!(text.contains("<title>Crab Reader</title>"));
    assert!(text.contains(&format!("<dateCreated>{}</dateCreated>", date)));
    assert!(text.contains("type=\"rss\""));
    assert!(text.contains("title=\"A\""));
    assert!(text.contains("xmlUrl=\"http://a/feed\""));
    assert_eq!(import_urls(&text).expect("an export is read"), vec!["http://a/feed", "http://b/feed?x=1&y=2"]);
}

#[test]
fn an_opml_document_gives_its_feed_urls() {
    let text = r#"<opml version="2.0"><head><title>feeds</title></head><body><outline text="a" xmlUrl="http://a/feed"/><outline text="folder"/><outline text="c" type="rss" xmlUrl="http://c/feed"/></body></opml>"#;
    assert_eq!(import_urls(text).expect("a document is read"), vec!["http://a/feed", "http://c/feed"]);
}

#[test]
fn an_invalid_opml_document_is_refused() {
    assert!(matches!(import_urls("not a document"), Err(OutlineError::Opml(_))));
    assert!(matches!(import_urls(r#"<opml version="2.0"><head/><body/></opml>"#), Err(OutlineError::Opml(_))));
    assert!(matches!(
        import_urls(r#"<opml version="3.0"><head/><body><outline text="a"/></body></opml>"#),
        Err(OutlineError::Opml(_))
    ));
}

#[test]
fn the_menu_has_its_submenus_in_order() {
    for macos in [true, false] {
        let titles: Vec<String> = menu_layout(macos).into_iter().map(|s| s.title).collect();
        assert_eq!(
            titles,
            vec!["Crab Reader", "Edit", "View", "Window", "Subscriptions", "Stories", "Import and Export"]
        );
    }
}

#[test]
fn the_first_submenu_depends_on_the_platform() {
    let mac = menu_layout(true);
    assert_eq!(mac[0].entries.len(), 10);
    assert_eq!(mac[0].entries[0], MenuEntry::About("Crab Reader".to_string()));
    assert_eq!(mac[0].entries[9], MenuEntry::Native(NativeItem::Quit));

    let other = menu_layout(false);
    assert_eq!(
        other[0].entries,
        vec![
            MenuEntry::Custom(MenuId::Preferences, "Preferences".to_string(), Some("CommandOrControl+,".to_string())),
            MenuEntry::Native(NativeItem::Quit),
        ]
    );
}

#[test]
fn the_stories_submenu_has_its_shortcuts() {
    let layout = menu_layout(false);
    let stories = &layout[5];
    assert_eq!(stories.entries.len(), 9);
    assert_eq!(
        stories.entries[0],
        MenuEntry::Custom(MenuId::NextStory, "Next Story".to_string(), Some("CommandOrControl+J".to_string()))
    );
    assert_eq!(stories.entries[2], MenuEntry::Native(NativeItem::Separator));
    assert_eq!(
        stories.entries[5],
        MenuEntry::Custom(MenuId::MarkAllRead, "Mark All Read".to_string(), Some("Alt+R".to_string()))
    );
    assert_eq!(
        layout[6].entries[1],
        MenuEntry::Custom(MenuId::ExportSubscriptions, "Export Subscriptions".to_string(), None)
    );
}
