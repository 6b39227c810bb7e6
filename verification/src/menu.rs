//! The reader's menu: the identifiers of its entries, and the subscriptions
//! as outlines of an OPML document, for import and export.

use opml::Error as OpmlError;
use vstd::prelude::*;

use crate::feed::{Subscription, SubscriptionView};
use crate::text::{opt_chars, str_eq};

verus! {

/// The error of the `opml` crate.
#[verifier::external_type_specification]
#[verifier::external_body]
pub struct ExOpmlError(OpmlError);

/// Why an OPML document could not be read or written.
#[derive(Debug)]
pub enum OutlineError {
    Opml(OpmlError),
}

/// The entries of the reader's own menus.
#[derive(Clone, Copy, Debug, PartialEq, Eq, Structural)]
pub enum MenuId {
    Preferences,
    AddSubscription,
    NextStory,
    PrevStory,
    ToggleRead,
    ToggleFavorite,
    MarkAllRead,
    SaveOffline,
    ViewBrowser,
    ImportSubscriptions,
    ExportSubscriptions,
}

/// The text that identifies a menu entry: its name in snake case.
pub open spec fn menu_id_text(id: MenuId) -> Seq<char> {
    match id {
        MenuId::Preferences => "preferences"@,
        MenuId::AddSubscription => "add_subscription"@,
        MenuId::NextStory => "next_story"@,
        MenuId::PrevStory => "prev_story"@,
        MenuId::ToggleRead => "toggle_read"@,
        MenuId::ToggleFavorite => "toggle_favorite"@,
        MenuId::MarkAllRead => "mark_all_read"@,
        MenuId::SaveOffline => "save_offline"@,
        MenuId::ViewBrowser => "view_browser"@,
        MenuId::ImportSubscriptions => "import_subscriptions"@,
        MenuId::ExportSubscriptions => "export_subscriptions"@,
    }
}

/// The menu entry that a text identifies, if any.
pub open spec fn parse_menu_id(s: Seq<char>) -> Option<MenuId> {
    if s == "preferences"@ {
        Some(MenuId::Preferences)
    } else if s == "add_subscription"@ {
        Some(MenuId::AddSubscription)
    } else if s == "next_story"@ {
        Some(MenuId::NextStory)
    } else if s == "prev_story"@ {
        Some(MenuId::PrevStory)
    } else if s == "toggle_read"@ {
        Some(MenuId::ToggleRead)
    } else if s == "toggle_favorite"@ {
        Some(MenuId::ToggleFavorite)
    } else if s == "mark_all_read"@ {
        Some(MenuId::MarkAllRead)
    } else if s == "save_offline"@ {
        Some(MenuId::SaveOffline)
    } else if s == "view_browser"@ {
        Some(MenuId::ViewBrowser)
    } else if s == "import_subscriptions"@ {
        Some(MenuId::ImportSubscriptions)
    } else if s == "export_subscriptions"@ {
        Some(MenuId::ExportSubscriptions)
    } else {
        None
    }
}

/// A text that names no menu entry.
#[derive(Clone, Copy, Debug, PartialEq, Eq, Structural)]
pub struct UnknownMenuId;

impl MenuId {
    /// The text that identifies the entry.
    pub fn as_str(&self) -> (r: &'static str)
        ensures
            r@ == menu_id_text(*self),
    {
        match self {
            MenuId::Preferences => "preferences",
            MenuId::AddSubscription => "add_subscription",
            MenuId::NextStory => "next_story",
            MenuId::PrevStory => "prev_story",
            MenuId::ToggleRead => "toggle_read",
            MenuId::ToggleFavorite => "toggle_favorite",
            MenuId::MarkAllRead => "mark_all_read",
            MenuId::SaveOffline => "save_offline",
            MenuId::ViewBrowser => "view_browser",
            MenuId::ImportSubscriptions => "import_subscriptions",
            MenuId::ExportSubscriptions => "export_subscriptions",
        }
    }

    /// The text that identifies the entry, owned.
    pub fn to_string(&self) -> (r: String)
        ensures
            r@ == menu_id_text(*self),
    {
        self.as_str().to_owned()
    }

    /// The entry that `s` identifies.
    pub fn parse(s: &str) -> (r: Result<MenuId, UnknownMenuId>)
        ensures
            r == match parse_menu_id(s@) {
                Some(id) => Ok::<MenuId, UnknownMenuId>(id),
                None => Err(UnknownMenuId),
            },
    {
        if str_eq(s, "preferences") {
            Ok(MenuId::Preferences)
        } else if str_eq(s, "add_subscription") {
            Ok(MenuId::AddSubscription)
        } else if str_eq(s, "next_story") {
            Ok(MenuId::NextStory)
        } else if str_eq(s, "prev_story") {
            Ok(MenuId::PrevStory)
        } else if str_eq(s, "toggle_read") {
            Ok(MenuId::ToggleRead)
        } else if str_eq(s, "toggle_favorite") {
            Ok(MenuId::ToggleFavorite)
        } else if str_eq(s, "mark_all_read") {
            Ok(MenuId::MarkAllRead)
        } else if str_eq(s, "save_offline") {
            Ok(MenuId::SaveOffline)
        } else if str_eq(s, "view_browser") {
            Ok(MenuId::ViewBrowser)
        } else if str_eq(s, "import_subscriptions") {
            Ok(MenuId::ImportSubscriptions)
        } else if str_eq(s, "export_subscriptions") {
            Ok(MenuId::ExportSubscriptions)
        } else {
            Err(UnknownMenuId)
        }
    }
}

impl std::str::FromStr for MenuId {
    type Err = UnknownMenuId;

    fn from_str(s: &str) -> (r: Result<MenuId, UnknownMenuId>)
        ensures
            r == match parse_menu_id(s@) {
                Some(id) => Ok::<MenuId, UnknownMenuId>(id),
                None => Err(UnknownMenuId),
            },
    {
        MenuId::parse(s)
    }
}

/// Reading back the text of a menu entry gives the entry.
pub proof fn lemma_menu_id_round_trip(id: MenuId)
    ensures
        parse_menu_id(menu_id_text(id)) == Some(id),
{
    reveal_strlit("preferences");
    reveal_strlit("add_subscription");
    reveal_strlit("next_story");
    reveal_strlit("prev_story");
    reveal_strlit("toggle_read");
    reveal_strlit("toggle_favorite");
    reveal_strlit("mark_all_read");
    reveal_strlit("save_offline");
    reveal_strlit("view_browser");
    reveal_strlit("import_subscriptions");
    reveal_strlit("export_subscriptions");
    // Texts differ in length, or else in their first character.
    assert("preferences"@.len() == 11);
    assert("add_subscription"@.len() == 16);
    assert("next_story"@.len() == 10);
    assert("prev_story"@.len() == 10);
    assert("toggle_read"@.len() == 11);
    assert("toggle_favorite"@.len() == 15);
    assert("mark_all_read"@.len() == 13);
    assert("save_offline"@.len() == 12);
    assert("view_browser"@.len() == 12);
    assert("import_subscriptions"@.len() == 20);
    assert("export_subscriptions"@.len() == 20);
    assert("next_story"@[0] != "prev_story"@[0]);
    assert("preferences"@[0] != "toggle_read"@[0]);
    assert("save_offline"@[0] != "view_browser"@[0]);
    assert("import_subscriptions"@[0] != "export_subscriptions"@[0]);
}

/// An outline of an OPML document: the parts that the reader writes and reads.
#[derive(Debug, PartialEq, Eq)]
pub struct Outline {
    pub title: Option<String>,
    pub xml_url: Option<String>,
    /// The outline's `type` attribute.
    pub kind: Option<String>,
}

pub struct OutlineView {
    pub title: Option<Seq<char>>,
    pub xml_url: Option<Seq<char>>,
    pub kind: Option<Seq<char>>,
}

impl View for Outline {
    type V = OutlineView;

    open spec fn view(&self) -> OutlineView {
        OutlineView {
            title: crate::text::opt_chars(self.title),
            xml_url: crate::text::opt_chars(self.xml_url),
            kind: crate::text::opt_chars(self.kind),
        }
    }
}

/// The outline that stands for a subscription: titled with its name, an
/// `rss` outline of its URL.
pub open spec fn subscription_outline(s: SubscriptionView) -> OutlineView {
    OutlineView { title: Some(s.name), xml_url: Some(s.url), kind: Some("rss"@) }
}

/// The URLs of the outlines that have one, in order.
pub open spec fn outline_urls(s: Seq<OutlineView>) -> Seq<Seq<char>>
    decreases s.len(),
{
    if s.len() == 0 {
        Seq::empty()
    } else {
        outline_urls(s.drop_last()) + match s.last().xml_url {
            Some(u) => seq![u],
            None => Seq::empty(),
        }
    }
}

/// The outlines of an export: one per subscription, in order.
pub fn export_outlines(subscriptions: &Vec<Subscription>) -> (r: Vec<Outline>)
    ensures
        r@.len() == subscriptions@.len(),
        forall|i: int| 0 <= i < r@.len() ==> (#[trigger] r@[i])@ == subscription_outline(subscriptions@[i]@),
{
    let mut r: Vec<Outline> = Vec::new();
    let n = subscriptions.len();
    for i in 0..n
        invariant
            n == subscriptions@.len(),
            r@.len() == i,
            forall|j: int| 0 <= j < i ==> (#[trigger] r@[j])@ == subscription_outline(subscriptions@[j]@),
    {
        let s = &subscriptions[i];
        r.push(Outline { title: Some(s.name().clone()), xml_url: Some(s.url().clone()), kind: Some("rss".to_owned()) });
    }
    r
}

/// The feed URLs of an import: those of the outlines that have one, in order.
pub fn feed_urls(outlines: &Vec<Outline>) -> (r: Vec<String>)
    ensures
        r@.map_values(|u: String| u@) == outline_urls(outlines@.map_values(|o: Outline| o@)),
{
    let mut r: Vec<String> = Vec::new();
    let n = outlines.len();
    let ghost ov = outlines@.map_values(|o: Outline| o@);
    for i in 0..n
        invariant
            n == outlines@.len(),
            ov == outlines@.map_values(|o: Outline| o@),
            r@.map_values(|u: String| u@) == outline_urls(ov.take(i as int)),
    {
        let ghost before = r@;
        proof {
            assert(ov.take(i + 1).drop_last() =~= ov.take(i as int));
            assert(ov.take(i + 1).last() == outlines@[i as int]@);
        }
        if let Some(u) = &outlines[i].xml_url {
            r.push(u.clone());
            proof {
                assert(r@.map_values(|u: String| u@) =~= before.map_values(|u: String| u@).push(u@));
                assert(outline_urls(ov.take(i + 1)) =~= outline_urls(ov.take(i as int)).push(u@));
            }
        } else {
            proof {
                assert(outline_urls(ov.take(i + 1)) =~= outline_urls(ov.take(i as int)));
            }
        }
    }
    proof {
        assert(ov.take(n as int) =~= ov);
    }
    r
}

/// The present ones of optional URLs, in order.
pub open spec fn present_urls(s: Seq<Option<Seq<char>>>) -> Seq<Seq<char>>
    decreases s.len(),
{
    if s.len() == 0 {
        Seq::empty()
    } else {
        present_urls(s.drop_last()) + match s.last() {
            Some(u) => seq![u],
            None => Seq::empty(),
        }
    }
}

/// The URLs of outlines are the present ones of their XML URLs.
pub proof fn lemma_outline_urls_present(s: Seq<OutlineView>)
    ensures
        outline_urls(s) == present_urls(s.map_values(|o: OutlineView| o.xml_url)),
    decreases s.len(),
{
    if s.len() > 0 {
        lemma_outline_urls_present(s.drop_last());
        assert(s.drop_last().map_values(|o: OutlineView| o.xml_url) =~= s.map_values(|o: OutlineView| o.xml_url).drop_last());
    }
}

/// What `opml::OPML::from_str` makes of a text: `None` where it fails (not
/// XML of an OPML document, a version other than 1.0, 1.1 and 2.0, or a body
/// without outlines), else the XML URL of each outline of the body, in order.
pub uninterp spec fn spec_opml_xml_urls(text: Seq<char>) -> Option<Seq<Option<Seq<char>>>>;

/// Calls `opml::OPML::from_str` and keeps, of each outline of the body, its
/// XML URL. Claimed: success and the URLs kept are a function of the text
/// alone. Which error comes back is left unsaid.
#[verifier::external_body]
fn opml_xml_urls(text: &str) -> (r: Result<Vec<Option<String>>, OpmlError>)
    ensures
        r is Ok <==> spec_opml_xml_urls(text@) is Some,
        r matches Ok(v) ==> spec_opml_xml_urls(text@) == Some(v@.map_values(|u: Option<String>| opt_chars(u))),
{
    let document = opml::OPML::from_str(text)?;
    Ok(document.body.outlines.into_iter().map(|o| o.xml_url).collect())
}

/// The feed URLs of an OPML document: those of the outlines of its body that
/// have one, in order.
pub fn import_urls(text: &str) -> (r: Result<Vec<String>, OutlineError>)
    ensures
        r is Ok <==> spec_opml_xml_urls(text@) is Some,
        r matches Ok(u) ==> u@.map_values(|s: String| s@) == present_urls(spec_opml_xml_urls(text@)->Some_0),
{
    let urls = match opml_xml_urls(text) {
        Ok(urls) => urls,
        Err(e) => return Err(OutlineError::Opml(e)),
    };
    let ghost ov = urls@.map_values(|u: Option<String>| opt_chars(u));
    let mut r: Vec<String> = Vec::new();
    let n = urls.len();
    for i in 0..n
        invariant
            n == urls@.len(),
            ov == urls@.map_values(|u: Option<String>| opt_chars(u)),
            r@.map_values(|u: String| u@) == present_urls(ov.take(i as int)),
    {
        let ghost before = r@;
        proof {
            assert(ov.take(i + 1).drop_last() =~= ov.take(i as int));
            assert(ov.take(i + 1).last() == opt_chars(urls@[i as int]));
        }
        if let Some(u) = &urls[i] {
            r.push(u.clone());
            proof {
                assert(r@.map_values(|u: String| u@) =~= before.map_values(|u: String| u@).push(u@));
                assert(present_urls(ov.take(i + 1)) =~= present_urls(ov.take(i as int)).push(u@));
            }
        } else {
            proof {
                assert(present_urls(ov.take(i + 1)) =~= present_urls(ov.take(i as int)));
            }
        }
    }
    proof {
        assert(ov.take(n as int) =~= ov);
    }
    Ok(r)
}

/// The title of an exported OPML document.
pub const EXPORT_TITLE: &'static str = "Crab Reader";

/// What `opml::OPML::to_string` writes for a version 2.0 document whose head
/// has the given title and creation date and whose body holds the given
/// outlines, each with no other attribute and no children: `None` where it
/// fails.
pub uninterp spec fn spec_opml_document(title: Seq<char>, date_created: Seq<char>, outlines: Seq<OutlineView>) -> Option<Seq<char>>;

/// Builds the document that `spec_opml_document` describes and calls
/// `opml::OPML::to_string` on it. Claimed: success and the text are a
/// function of the arguments alone. Which error comes back is left unsaid.
/// An outline's `type` attribute is set through its serialized form, where
/// the field is named `type`; that round trip through `serde_json` cannot
/// fail on an outline, whose fields are strings, flags and outlines.
#[verifier::external_body]
fn opml_document(title: &str, date_created: &str, outlines: Vec<Outline>) -> (r: Result<String, OpmlError>)
    ensures
        r is Ok <==> spec_opml_document(title@, date_created@, outlines@.map_values(|o: Outline| o@)) is Some,
        r matches Ok(t) ==> spec_opml_document(title@, date_created@, outlines@.map_values(|o: Outline| o@)) == Some(t@),
{
    let head = opml::Head { title: Some(title.to_owned()), date_created: Some(date_created.to_owned()), ..Default::default() };
    let outlines = outlines.into_iter().map(|o| {
        let plain = opml::Outline { title: o.title, xml_url: o.xml_url, ..Default::default() };
        let mut fields = serde_json::to_value(plain).expect("an outline serializes");
        fields["type"] = serde_json::Value::from(o.kind);
        serde_json::from_value(fields).expect("an outline deserializes")
    }).collect();
    opml::OPML { head: Some(head), body: opml::Body { outlines }, ..Default::default() }.to_string()
}

/// The OPML document of an export, created at `date_created`: titled
/// `EXPORT_TITLE`, with one outline per subscription, in order.
pub fn export_document(subscriptions: &Vec<Subscription>, date_created: &str) -> (r: Result<String, OutlineError>)
    ensures
        r is Ok <==> spec_opml_document(EXPORT_TITLE@, date_created@, subscriptions@.map_values(|s: Subscription| subscription_outline(s@))) is Some,
        r matches Ok(t) ==> spec_opml_document(EXPORT_TITLE@, date_created@, subscriptions@.map_values(|s: Subscription| subscription_outline(s@))) == Some(t@),
{
    let outlines = export_outlines(subscriptions);
    proof {
        assert(outlines@.map_values(|o: Outline| o@) =~= subscriptions@.map_values(|s: Subscription| subscription_outline(s@)));
    }
    match opml_document(EXPORT_TITLE, date_created, outlines) {
        Ok(text) => Ok(text),
        Err(e) => Err(OutlineError::Opml(e)),
    }
}

/// Importing an export gives back the URLs of the subscriptions, in order.
pub proof fn lemma_export_import(subs: Seq<SubscriptionView>)
    ensures
        outline_urls(subs.map_values(|s: SubscriptionView| subscription_outline(s)))
            == subs.map_values(|s: SubscriptionView| s.url),
    decreases subs.len(),
{
    let outlines = subs.map_values(|s: SubscriptionView| subscription_outline(s));
    if subs.len() > 0 {
        lemma_export_import(subs.drop_last());
        assert(outlines.drop_last() =~= subs.drop_last().map_values(|s: SubscriptionView| subscription_outline(s)));
        assert(subs.map_values(|s: SubscriptionView| s.url) =~= subs.drop_last().map_values(|s: SubscriptionView| s.url).push(subs.last().url));
    } else {
        assert(subs.map_values(|s: SubscriptionView| s.url) =~= Seq::<Seq<char>>::empty());
    }
}

} // verus!
