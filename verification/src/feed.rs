//! Subscriptions and their stories.

use serde_json::Error as JsonError;
use std::io::Error as IoError;
use std::path::PathBuf;
use vstd::multiset::Multiset;
use vstd::prelude::*;

use crate::date::{date_form_decided, date_outcome, parse_date, Timestamp};
use crate::entries::{
    collect_entries, entries_map, find_key, keys_distinct, lemma_entries_map_dom, lemma_entries_map_push,
    lemma_entries_map_len, lemma_entries_map_same_keys, lemma_entries_map_update, lemma_entries_map_value,
};
use crate::source::{Channel, ChannelView, Item, ItemView};
use crate::text::{chars_le, chars_lt, lemma_chars_lt_total, lemma_chars_lt_transitive, str_lt};

verus! {

/// Why a feed item could not become a story.
#[derive(Clone, Copy, Debug, PartialEq, Eq, Structural)]
pub enum TryFromError {
    MissingTitle,
    MissingLink,
    MissingContent,
    MissingPubDate,
    ParsePubDate,
}

/// The message of each reason why an item could not become a story.
pub open spec fn try_from_error_text(e: TryFromError) -> Seq<char> {
    match e {
        TryFromError::MissingTitle => "missing title"@,
        TryFromError::MissingLink => "missing link"@,
        TryFromError::MissingContent => "missing content"@,
        TryFromError::MissingPubDate => "missing pub date"@,
        TryFromError::ParsePubDate => "invalid pub date"@,
    }
}

impl TryFromError {
    /// The message that tells what is wrong.
    pub fn message(&self) -> (r: &'static str)
        ensures
            r@ == try_from_error_text(*self),
    {
        match self {
            TryFromError::MissingTitle => "missing title",
            TryFromError::MissingLink => "missing link",
            TryFromError::MissingContent => "missing content",
            TryFromError::MissingPubDate => "missing pub date",
            TryFromError::ParsePubDate => "invalid pub date",
        }
    }
}

/// A story: an item of a feed, ready to be read.
#[derive(Debug, PartialEq, Eq)]
pub struct Story {
    pub title: String,
    pub link: String,
    /// The item's content, or else its description, cleaned of unsafe HTML.
    pub content: String,
    pub pub_date: Timestamp,
    pub starred: bool,
    pub read: bool,
}

pub struct StoryView {
    pub title: Seq<char>,
    pub link: Seq<char>,
    pub content: Seq<char>,
    pub pub_date: Timestamp,
    pub starred: bool,
    pub read: bool,
}

impl View for Story {
    type V = StoryView;

    open spec fn view(&self) -> StoryView {
        StoryView {
            title: self.title@,
            link: self.link@,
            content: self.content@,
            pub_date: self.pub_date,
            starred: self.starred,
            read: self.read,
        }
    }
}

impl Clone for Story {
    fn clone(&self) -> (r: Self)
        ensures
            r == *self,
    {
        Story {
            title: self.title.clone(),
            link: self.link.clone(),
            content: self.content.clone(),
            pub_date: self.pub_date,
            starred: self.starred,
            read: self.read,
        }
    }
}

/// What `ammonia::clean` makes of a fragment of HTML.
pub uninterp spec fn spec_clean(html: Seq<char>) -> Seq<char>;

/// Calls `ammonia::clean`, which keeps of an HTML fragment only the tags and
/// attributes on its default allow-list. Claimed: the result is a function of
/// the fragment alone.
#[verifier::external_body]
fn clean_html(html: &str) -> (r: String)
    ensures
        r@ == spec_clean(html@),
{
    ammonia::clean(html)
}

/// The view of the outcome of converting an item.
pub open spec fn outcome_view(r: Result<Story, TryFromError>) -> Result<StoryView, TryFromError> {
    match r {
        Ok(s) => Ok(s@),
        Err(e) => Err(e),
    }
}

/// `r` is what converting `item` may give: the first missing part among title,
/// link, content-or-description and publication date is the error; else the
/// date is read as `date_outcome` says, and a story has the item's title and
/// link, its content (or else its description) cleaned, and is neither starred
/// nor read.
pub open spec fn story_outcome(item: ItemView, r: Result<StoryView, TryFromError>) -> bool {
    match item.title {
        None => r == Err::<StoryView, TryFromError>(TryFromError::MissingTitle),
        Some(title) => match item.link {
            None => r == Err::<StoryView, TryFromError>(TryFromError::MissingLink),
            Some(link) => match (if item.content is Some { item.content } else { item.description }) {
                None => r == Err::<StoryView, TryFromError>(TryFromError::MissingContent),
                Some(content) => match item.pub_date {
                    None => r == Err::<StoryView, TryFromError>(TryFromError::MissingPubDate),
                    Some(date) => match r {
                        Ok(s) => {
                            &&& date_outcome(date, Ok(s.pub_date))
                            &&& s == (StoryView {
                                title,
                                link,
                                content: spec_clean(content),
                                pub_date: s.pub_date,
                                starred: false,
                                read: false,
                            })
                        },
                        Err(e) => date_outcome(date, Err(e)),
                    },
                },
            },
        },
    }
}

impl Story {
    /// Converts a feed item into a story.
    pub fn from_item(item: &Item) -> (r: Result<Story, TryFromError>)
        ensures
            story_outcome(item@, outcome_view(r)),
            r matches Ok(s) ==> {
                &&& item@.title == Some(s@.title)
                &&& item@.link == Some(s@.link)
                &&& s@.content == spec_clean(if item@.content is Some { item@.content->Some_0 } else { item@.description->Some_0 })
                &&& !s.starred
                &&& !s.read
            },
            r == Err::<Story, TryFromError>(TryFromError::MissingTitle) <==> item@.title is None,
            r == Err::<Story, TryFromError>(TryFromError::MissingLink) <==> item@.title is Some && item@.link is None,
            r == Err::<Story, TryFromError>(TryFromError::MissingContent) <==> item@.title is Some && item@.link is Some
                && item@.content is None && item@.description is None,
            r == Err::<Story, TryFromError>(TryFromError::MissingPubDate) <==> item@.title is Some && item@.link is Some
                && (item@.content is Some || item@.description is Some) && item@.pub_date is None,
            r matches Ok(s) ==> item@.pub_date is Some && date_outcome(item@.pub_date->Some_0, Ok(s.pub_date)),
    {
        let title = match &item.title {
            Some(t) => t,
            None => return Err(TryFromError::MissingTitle),
        };
        let link = match &item.link {
            Some(l) => l,
            None => return Err(TryFromError::MissingLink),
        };
        let content = match &item.content {
            Some(c) => c,
            None => match &item.description {
                Some(d) => d,
                None => return Err(TryFromError::MissingContent),
            },
        };
        let date = match &item.pub_date {
            Some(d) => d,
            None => return Err(TryFromError::MissingPubDate),
        };
        let pub_date = match parse_date(date.as_str()) {
            Ok(t) => t,
            Err(e) => return Err(e),
        };
        Ok(
            Story {
                title: title.clone(),
                link: link.clone(),
                content: clean_html(content.as_str()),
                pub_date,
                starred: false,
                read: false,
            },
        )
    }
}

impl<'a> TryFrom<&'a Item> for Story {
    type Error = TryFromError;

    fn try_from(item: &'a Item) -> (r: Result<Story, TryFromError>)
        ensures
            story_outcome(item@, outcome_view(r)),
    {
        Story::from_item(item)
    }
}

impl<'a> vstd::std_specs::convert::TryFromSpecImpl<&'a Item> for Story {
    /// The outcome can rest on the machine's time zone, so no single value is
    /// claimed; `try_from` states what holds of it.
    open spec fn obeys_try_from_spec() -> bool {
        false
    }

    open spec fn try_from_spec(item: &'a Item) -> Result<Story, TryFromError> {
        vstd::pervasive::arbitrary()
    }
}

/// The error of `std::io`.
#[verifier::external_type_specification]
#[verifier::external_body]
pub struct ExIoError(IoError);

/// The error of `serde_json`.
#[verifier::external_type_specification]
#[verifier::external_body]
pub struct ExJsonError(JsonError);

/// A path of the file system.
#[verifier::external_type_specification]
#[verifier::external_body]
pub struct ExPathBuf(std::path::PathBuf);

/// Calls `PathBuf::new`, the empty path. Nothing is claimed of it.
#[verifier::external_body]
fn empty_path() -> PathBuf {
    PathBuf::new()
}

/// What went wrong while keeping subscriptions.
#[derive(Debug)]
pub enum Error {
    /// An item of an ingested channel could not become a story.
    Ingest(TryFromError),
    /// Reading or writing the subscriptions file failed.
    Io(IoError),
    /// The subscriptions file is not valid JSON of subscriptions.
    Json(JsonError),
}

/// A subscription: a feed by its name and URL, with its stories keyed by link.
#[derive(Debug, PartialEq, Eq)]
pub struct Subscription {
    pub name: String,
    pub url: String,
    stories: Vec<(String, Story)>,
}

pub struct SubscriptionView {
    pub name: Seq<char>,
    pub url: Seq<char>,
    pub stories: Map<Seq<char>, StoryView>,
}

impl View for Subscription {
    type V = SubscriptionView;

    closed spec fn view(&self) -> SubscriptionView {
        SubscriptionView { name: self.name@, url: self.url@, stories: entries_map(self.stories@) }
    }
}

impl Subscription {
    /// No link keys two stories.
    pub closed spec fn wf(&self) -> bool {
        keys_distinct(self.stories@)
    }

    /// The stories, one per link, in the order in which they are kept.
    pub closed spec fn story_list(&self) -> Seq<Story> {
        self.stories@.map_values(|e: (String, Story)| e.1)
    }

    /// A subscription from its parts; of stories with the same key the later
    /// one is kept, as in a map filled in order.
    pub fn from_entries(name: String, url: String, stories: Vec<(String, Story)>) -> (r: Subscription)
        ensures
            r.wf(),
            r@ == (SubscriptionView { name: name@, url: url@, stories: entries_map(stories@) }),
    {
        Subscription { name, url, stories: collect_entries(stories) }
    }

    /// The name, the title of the channel when it was first ingested.
    pub fn name(&self) -> (r: &String)
        ensures
            r@ == self@.name,
    {
        &self.name
    }

    /// The URL of the feed.
    pub fn url(&self) -> (r: &String)
        ensures
            r@ == self@.url,
    {
        &self.url
    }

    /// The links that key the stories, in the order of `story_list`.
    pub closed spec fn link_list(&self) -> Seq<Seq<char>> {
        self.stories@.map_values(|e: (String, Story)| e.0@)
    }

    /// The list of stories holds each story of the map once, beside its link.
    pub proof fn lemma_story_list(&self)
        requires
            self.wf(),
        ensures
            self.story_list().len() == self@.stories.dom().len(),
            self.link_list().len() == self.story_list().len(),
            forall|i: int, j: int| 0 <= i < j < self.link_list().len() ==> self.link_list()[i] != self.link_list()[j],
            forall|i: int| #![trigger self.link_list()[i]] 0 <= i < self.link_list().len() ==> self@.stories.contains_key(self.link_list()[i])
                && self@.stories[self.link_list()[i]] == self.story_list()[i]@,
            forall|l: Seq<char>| #[trigger] self@.stories.contains_key(l) ==> exists|i: int|
                0 <= i < self.link_list().len() && #[trigger] self.link_list()[i] == l,
    {
        let s = self.stories@;
        lemma_entries_map_len(s);
        assert forall|i: int| #![trigger self.link_list()[i]] 0 <= i < self.link_list().len() implies self@.stories.contains_key(self.link_list()[i])
            && self@.stories[self.link_list()[i]] == self.story_list()[i]@ by {
            lemma_entries_map_value(s, i);
            assert(self.story_list()[i] == s[i].1);
        }
        assert forall|l: Seq<char>| #[trigger] self@.stories.contains_key(l) implies exists|i: int|
            0 <= i < self.link_list().len() && #[trigger] self.link_list()[i] == l by {
            lemma_entries_map_dom(s, l);
            let i = choose|i: int| 0 <= i < s.len() && s[i].0@ == l;
            assert(self.link_list()[i] == l);
        }
    }

    /// A copy with the same name, URL and stories.
    pub fn duplicate(&self) -> (r: Subscription)
        ensures
            r@ == self@,
            r.wf() == self.wf(),
            r.story_list() == self.story_list(),
    {
        let mut stories: Vec<(String, Story)> = Vec::new();
        let n = self.stories.len();
        for i in 0..n
            invariant
                n == self.stories@.len(),
                stories@.len() == i,
                forall|j: int| 0 <= j < i ==> (#[trigger] stories@[j]).0@ == self.stories@[j].0@ && stories@[j].1 == self.stories@[j].1,
        {
            let e = &self.stories[i];
            stories.push((e.0.clone(), e.1.clone()));
        }
        let r = Subscription { name: self.name.clone(), url: self.url.clone(), stories };
        proof {
            assert(r.story_list() =~= self.story_list());
            lemma_entries_map_same_keys(r.stories@, self.stories@);
        }
        r
    }

    /// The stories with their keys.
    pub fn entries(&self) -> (r: &Vec<(String, Story)>)
        ensures
            self.wf() ==> keys_distinct(r@),
            entries_map(r@) == self@.stories,
    {
        &self.stories
    }

    /// Adds the converted stories in order, each under its link unless the
    /// link is there already, up to the first failed conversion.
    fn add_stories(&mut self, outcomes: &Vec<Result<Story, TryFromError>>) -> (r: Result<(), TryFromError>)
        requires
            old(self).wf(),
        ensures
            final(self).wf(),
            final(self).name == old(self).name,
            final(self).url == old(self).url,
            (final(self)@.stories, r) == add_stories(old(self)@.stories, outcome_views(outcomes@)),
    {
        let ghost ov = outcome_views(outcomes@);
        let mut i: usize = 0;
        proof {
            assert(ov.skip(0) =~= ov);
        }
        while i < outcomes.len()
            invariant
                i <= outcomes@.len(),
                ov == outcome_views(outcomes@),
                self.wf(),
                self.name == old(self).name,
                self.url == old(self).url,
                add_stories(old(self)@.stories, ov) == add_stories(self@.stories, ov.skip(i as int)),
            decreases outcomes@.len() - i,
        {
            proof {
                assert(ov.skip(i as int)[0] == ov[i as int]);
                assert(ov.skip(i as int).drop_first() =~= ov.skip(i + 1));
            }
            match &outcomes[i] {
                Err(e) => {
                    return Err(*e);
                },
                Ok(story) => {
                    let ghost before = self.stories@;
                    proof {
                        lemma_entries_map_dom(before, story.link@);
                    }
                    if find_key(&self.stories, &story.link).is_none() {
                        let e = (story.link.clone(), story.clone());
                        self.stories.push(e);
                        proof {
                            lemma_entries_map_push(before, e);
                            assert forall|a: int, b: int| 0 <= a < b < self.stories@.len() implies self.stories@[a].0@ != self.stories@[b].0@ by {
                                if b == before.len() {
                                    assert(before[a].0@ != e.0@);
                                }
                            }
                        }
                    }
                },
            }
            i += 1;
        }
        proof {
            assert(ov.skip(i as int) =~= Seq::<Result<StoryView, TryFromError>>::empty());
        }
        Ok(())
    }
}

/// The views of a list of subscriptions.
pub open spec fn subscription_views(s: Seq<Subscription>) -> Seq<SubscriptionView> {
    s.map_values(|x: Subscription| x@)
}

/// The subscriptions are in order of name.
pub open spec fn by_name(s: Seq<SubscriptionView>) -> bool {
    forall|i: int, j: int| 0 <= i < j < s.len() ==> chars_le(#[trigger] s[i].name, #[trigger] s[j].name)
}

/// The stories are newest first.
pub open spec fn newest_first(s: Seq<Story>) -> bool {
    forall|i: int, j: int| 0 <= i < j < s.len() ==> !(#[trigger] s[j].pub_date).is_after(#[trigger] s[i].pub_date)
}

proof fn lemma_insert_to_multiset<A>(s: Seq<A>, p: int, x: A)
    requires
        0 <= p <= s.len(),
    ensures
        s.insert(p, x).to_multiset() == s.to_multiset().insert(x),
{
    broadcast use vstd::seq_lib::group_to_multiset_ensures;

    let t = s.insert(p, x);
    assert(t.remove(p) =~= s);
    assert(t[p] == x);
    assert(t.contains(x));
    assert(t.to_multiset() =~= s.to_multiset().insert(x));
}

proof fn lemma_pop_to_multiset<A>(s: Seq<A>)
    requires
        s.len() > 0,
    ensures
        s.to_multiset() == s.drop_last().to_multiset().insert(s.last()),
{
    broadcast use vstd::seq_lib::group_to_multiset_ensures;

    assert(s.drop_last().push(s.last()) =~= s);
}

proof fn lemma_insert_by_name(s: Seq<SubscriptionView>, p: int, x: SubscriptionView)
    requires
        by_name(s),
        0 <= p <= s.len(),
        forall|j: int| 0 <= j < p ==> !chars_lt(x.name, #[trigger] s[j].name),
        p < s.len() ==> chars_lt(x.name, s[p].name),
    ensures
        by_name(s.insert(p, x)),
{
    let t = s.insert(p, x);
    assert forall|i: int, j: int| 0 <= i < j < t.len() implies chars_le(#[trigger] t[i].name, #[trigger] t[j].name) by {
        if i < p && j == p {
            assert(!chars_lt(x.name, s[i].name));
            lemma_chars_lt_total(x.name, s[i].name);
        } else if i == p && j > p {
            assert(t[j] == s[j - 1]);
            assert(chars_le(s[p].name, s[j - 1].name));
            if s[p].name != s[j - 1].name {
                lemma_chars_lt_transitive(x.name, s[p].name, s[j - 1].name);
            }
        } else if i < p && j > p {
            assert(t[j] == s[j - 1]);
            assert(chars_le(s[i].name, s[j - 1].name));
        } else if i > p {
            assert(t[i] == s[i - 1] && t[j] == s[j - 1]);
            assert(chars_le(s[i - 1].name, s[j - 1].name));
        } else {
            assert(t[i] == s[i] && t[j] == s[j]);
            assert(chars_le(s[i].name, s[j].name));
        }
    }
}

proof fn lemma_insert_newest_first(s: Seq<Story>, p: int, x: Story)
    requires
        newest_first(s),
        0 <= p <= s.len(),
        forall|j: int| 0 <= j < p ==> !x.pub_date.is_after(#[trigger] s[j].pub_date),
        p < s.len() ==> x.pub_date.is_after(s[p].pub_date),
    ensures
        newest_first(s.insert(p, x)),
{
    let t = s.insert(p, x);
    assert forall|i: int, j: int| 0 <= i < j < t.len() implies !(#[trigger] t[j].pub_date).is_after(#[trigger] t[i].pub_date) by {
        if i < p && j == p {
            assert(!x.pub_date.is_after(s[i].pub_date));
        } else if i == p && j > p {
            assert(t[j] == s[j - 1]);
            assert(!s[j - 1].pub_date.is_after(s[p].pub_date));
        } else if i < p && j > p {
            assert(t[j] == s[j - 1]);
            assert(!s[j - 1].pub_date.is_after(s[i].pub_date));
        } else if i > p {
            assert(t[i] == s[i - 1] && t[j] == s[j - 1]);
            assert(!s[j - 1].pub_date.is_after(s[i - 1].pub_date));
        } else {
            assert(t[i] == s[i] && t[j] == s[j]);
            assert(!s[j].pub_date.is_after(s[i].pub_date));
        }
    }
}

/// Sorts subscriptions by name; of equal names any order may come out.
fn sort_by_name(v: Vec<Subscription>) -> (r: Vec<Subscription>)
    requires
        forall|i: int| 0 <= i < v@.len() ==> (#[trigger] v@[i]).wf(),
    ensures
        subscription_views(r@).to_multiset() == subscription_views(v@).to_multiset(),
        by_name(subscription_views(r@)),
        forall|i: int| 0 <= i < r@.len() ==> (#[trigger] r@[i]).wf(),
{
    broadcast use vstd::seq_lib::group_to_multiset_ensures;

    let ghost orig = v@;
    let mut v = v;
    let mut r: Vec<Subscription> = Vec::new();
    proof {
        assert(subscription_views(r@).to_multiset() =~= Multiset::empty());
    }
    while v.len() > 0
        invariant
            subscription_views(r@).to_multiset().add(subscription_views(v@).to_multiset())
                == subscription_views(orig).to_multiset(),
            by_name(subscription_views(r@)),
            forall|i: int| 0 <= i < r@.len() ==> (#[trigger] r@[i]).wf(),
            forall|i: int| 0 <= i < v@.len() ==> (#[trigger] v@[i]).wf(),
        decreases v@.len(),
    {
        let ghost vb = v@;
        let ghost rb = r@;
        let x = v.pop().unwrap();
        let mut p: usize = 0;
        while p < r.len()
            invariant
                r@ == rb,
                p <= r@.len(),
                forall|j: int| 0 <= j < p ==> !chars_lt(x.name@, #[trigger] r@[j].name@),
            ensures
                p <= r@.len(),
                forall|j: int| 0 <= j < p ==> !chars_lt(x.name@, #[trigger] r@[j].name@),
                p < r@.len() ==> chars_lt(x.name@, r@[p as int].name@),
            decreases r@.len() - p,
        {
            if str_lt(x.name.as_str(), r[p].name.as_str()) {
                break;
            }
            p += 1;
        }
        r.insert(p, x);
        proof {
            let sv = subscription_views(rb);
            assert(subscription_views(r@) =~= sv.insert(p as int, x@));
            assert forall|j: int| 0 <= j < p implies !chars_lt(x@.name, #[trigger] sv[j].name) by {
                assert(!chars_lt(x.name@, rb[j].name@));
            }
            lemma_insert_by_name(sv, p as int, x@);
            lemma_insert_to_multiset(sv, p as int, x@);
            assert(subscription_views(vb).drop_last() =~= subscription_views(v@));
            lemma_pop_to_multiset(subscription_views(vb));
            assert(subscription_views(r@).to_multiset().add(subscription_views(v@).to_multiset())
                =~= subscription_views(rb).to_multiset().add(subscription_views(vb).to_multiset()));
            assert forall|i: int| 0 <= i < r@.len() implies (#[trigger] r@[i]).wf() by {
                if i < p {
                    assert(r@[i] == rb[i]);
                } else if i > p {
                    assert(r@[i] == rb[i - 1]);
                }
            }
        }
    }
    proof {
        assert(subscription_views(v@).to_multiset() =~= Multiset::empty());
        assert(subscription_views(r@).to_multiset() =~= subscription_views(r@).to_multiset().add(Multiset::empty()));
    }
    r
}

/// Sorts stories newest first; of equal dates any order may come out.
fn sort_newest_first(v: Vec<Story>) -> (r: Vec<Story>)
    ensures
        r@.to_multiset() == v@.to_multiset(),
        newest_first(r@),
{
    broadcast use vstd::seq_lib::group_to_multiset_ensures;

    let ghost orig = v@;
    let mut v = v;
    let mut r: Vec<Story> = Vec::new();
    proof {
        assert(r@.to_multiset() =~= Multiset::empty());
    }
    while v.len() > 0
        invariant
            r@.to_multiset().add(v@.to_multiset()) == orig.to_multiset(),
            newest_first(r@),
        decreases v@.len(),
    {
        let ghost vb = v@;
        let ghost rb = r@;
        let x = v.pop().unwrap();
        let mut p: usize = 0;
        while p < r.len()
            invariant
                r@ == rb,
                p <= r@.len(),
                forall|j: int| 0 <= j < p ==> !x.pub_date.is_after(#[trigger] r@[j].pub_date),
            ensures
                p <= r@.len(),
                forall|j: int| 0 <= j < p ==> !x.pub_date.is_after(#[trigger] r@[j].pub_date),
                p < r@.len() ==> x.pub_date.is_after(r@[p as int].pub_date),
            decreases r@.len() - p,
        {
            if x.pub_date.later_than(&r[p].pub_date) {
                break;
            }
            p += 1;
        }
        r.insert(p, x);
        proof {
            lemma_insert_newest_first(rb, p as int, x);
            lemma_insert_to_multiset(rb, p as int, x);
            lemma_pop_to_multiset(vb);
            assert(r@.to_multiset().add(v@.to_multiset()) =~= rb.to_multiset().add(vb.to_multiset()));
        }
    }
    proof {
        assert(v@.to_multiset() =~= Multiset::empty());
        assert(r@.to_multiset() =~= r@.to_multiset().add(Multiset::empty()));
    }
    r
}

/// The stories of the subscriptions, subscription by subscription.
pub open spec fn all_stories(s: Seq<Subscription>) -> Seq<Story>
    decreases s.len(),
{
    if s.len() == 0 {
        Seq::empty()
    } else {
        all_stories(s.drop_last()) + s.last().story_list()
    }
}

proof fn lemma_all_stories_has(s: Seq<Subscription>, j: int, i: int)
    requires
        0 <= j < s.len(),
        0 <= i < s[j].story_list().len(),
    ensures
        all_stories(s).contains(s[j].story_list()[i]),
    decreases s.len(),
{
    let front = all_stories(s.drop_last());
    let x = s[j].story_list()[i];
    if j == s.len() - 1 {
        assert(all_stories(s)[front.len() + i] == x);
    } else {
        lemma_all_stories_has(s.drop_last(), j, i);
        let k = choose|k: int| 0 <= k < front.len() && front[k] == x;
        assert(all_stories(s)[k] == x);
    }
}

proof fn lemma_all_stories_from(s: Seq<Subscription>, x: Story)
    requires
        all_stories(s).contains(x),
    ensures
        exists|j: int, i: int| 0 <= j < s.len() && 0 <= i < s[j].story_list().len() && s[j].story_list()[i] == x,
    decreases s.len(),
{
    let front = all_stories(s.drop_last());
    let k = choose|k: int| 0 <= k < all_stories(s).len() && all_stories(s)[k] == x;
    if k < front.len() {
        assert(front[k] == x);
        lemma_all_stories_from(s.drop_last(), x);
        let (j, i) = choose|j: int, i: int| 0 <= j < s.drop_last().len() && 0 <= i < s.drop_last()[j].story_list().len()
            && s.drop_last()[j].story_list()[i] == x;
        assert(s[j] == s.drop_last()[j]);
    } else {
        assert(s[s.len() - 1].story_list()[k - front.len()] == x);
    }
}

/// The views of the outcomes of conversions.
pub open spec fn outcome_views(outcomes: Seq<Result<Story, TryFromError>>) -> Seq<Result<StoryView, TryFromError>> {
    outcomes.map_values(|o: Result<Story, TryFromError>| outcome_view(o))
}

/// Adding converted stories to a map keyed by link, in order: a story whose
/// link is a key already is dropped, the existing one stays; the first failed
/// conversion ends it and is the result.
pub open spec fn add_stories(
    stories: Map<Seq<char>, StoryView>,
    outcomes: Seq<Result<StoryView, TryFromError>>,
) -> (Map<Seq<char>, StoryView>, Result<(), TryFromError>)
    decreases outcomes.len(),
{
    if outcomes.len() == 0 {
        (stories, Ok(()))
    } else {
        match outcomes[0] {
            Err(e) => (stories, Err(e)),
            Ok(s) => add_stories(
                if stories.contains_key(s.link) { stories } else { stories.insert(s.link, s) },
                outcomes.drop_first(),
            ),
        }
    }
}

/// Ingesting a channel titled `title` from `url` whose items converted to
/// `outcomes`: the subscription under the title (a new one with that name and
/// URL and no stories where there is none) gets the stories, as `add_stories`
/// says, and stays in the map even where a conversion failed.
pub open spec fn apply_ingest(
    m: Map<Seq<char>, SubscriptionView>,
    url: Seq<char>,
    title: Seq<char>,
    outcomes: Seq<Result<StoryView, TryFromError>>,
) -> (Map<Seq<char>, SubscriptionView>, Result<(), TryFromError>) {
    let sub = if m.contains_key(title) {
        m[title]
    } else {
        SubscriptionView { name: title, url, stories: Map::empty() }
    };
    let added = add_stories(sub.stories, outcomes);
    (m.insert(title, SubscriptionView { name: sub.name, url: sub.url, stories: added.0 }), added.1)
}

/// The items of a channel were converted in order up to the first failure:
/// each outcome is one that converting its item may give.
pub open spec fn conversions(items: Seq<ItemView>, outcomes: Seq<Result<StoryView, TryFromError>>) -> bool {
    &&& outcomes.len() <= items.len()
    &&& forall|j: int| 0 <= j < outcomes.len() ==> story_outcome(#[trigger] items[j], outcomes[j])
    &&& forall|j: int| 0 <= j < outcomes.len() - 1 ==> #[trigger] outcomes[j] is Ok
    &&& outcomes.len() < items.len() ==> outcomes.len() > 0 && outcomes.last() is Err
}

/// `r` reports the outcome `s` of an ingest.
pub open spec fn ingest_result(r: Result<(), Error>, s: Result<(), TryFromError>) -> bool {
    match s {
        Ok(()) => r is Ok,
        Err(e) => r matches Err(Error::Ingest(x)) && x == e,
    }
}

/// A story that converting an item gives has the item's link.
pub proof fn lemma_story_outcome_link(item: ItemView, r: Result<StoryView, TryFromError>)
    requires
        story_outcome(item, r),
    ensures
        r matches Ok(s) ==> item.link == Some(s.link),
{
}

/// Adding stories never drops or replaces a story already kept.
pub proof fn lemma_add_stories_keeps(
    stories: Map<Seq<char>, StoryView>,
    outcomes: Seq<Result<StoryView, TryFromError>>,
)
    ensures
        forall|k: Seq<char>| #[trigger] stories.contains_key(k) ==> add_stories(stories, outcomes).0.contains_key(k)
            && add_stories(stories, outcomes).0[k] == stories[k],
    decreases outcomes.len(),
{
    if outcomes.len() > 0 {
        if let Ok(s) = outcomes[0] {
            let next = if stories.contains_key(s.link) { stories } else { stories.insert(s.link, s) };
            lemma_add_stories_keeps(next, outcomes.drop_first());
            assert forall|k: Seq<char>| #[trigger] stories.contains_key(k) implies next.contains_key(k) && next[k] == stories[k] by {}
        }
    }
}

/// Every story kept after adding stories was kept before, unchanged, or is
/// exactly one of the converted stories, under its own link.
pub proof fn lemma_add_stories_from_outcomes(
    stories: Map<Seq<char>, StoryView>,
    outcomes: Seq<Result<StoryView, TryFromError>>,
)
    ensures
        forall|l: Seq<char>| #[trigger] add_stories(stories, outcomes).0.contains_key(l) ==> {
            ||| stories.contains_key(l) && add_stories(stories, outcomes).0[l] == stories[l]
            ||| exists|j: int| 0 <= j < outcomes.len()
                && outcomes[j] == Ok::<StoryView, TryFromError>(add_stories(stories, outcomes).0[l])
                && add_stories(stories, outcomes).0[l].link == l
        },
    decreases outcomes.len(),
{
    if outcomes.len() > 0 {
        if let Ok(s) = outcomes[0] {
            let next = if stories.contains_key(s.link) { stories } else { stories.insert(s.link, s) };
            let rest = outcomes.drop_first();
            lemma_add_stories_from_outcomes(next, rest);
            let res = add_stories(stories, outcomes).0;
            assert(res == add_stories(next, rest).0);
            assert forall|l: Seq<char>| #[trigger] res.contains_key(l) implies {
                ||| stories.contains_key(l) && res[l] == stories[l]
                ||| exists|j: int| 0 <= j < outcomes.len()
                    && outcomes[j] == Ok::<StoryView, TryFromError>(res[l]) && res[l].link == l
            } by {
                if next.contains_key(l) && res[l] == next[l] {
                    if !stories.contains_key(l) {
                        assert(l == s.link && next[l] == s);
                        assert(outcomes[0] == Ok::<StoryView, TryFromError>(res[l]));
                    }
                } else {
                    let j = choose|j: int| 0 <= j < rest.len()
                        && rest[j] == Ok::<StoryView, TryFromError>(res[l]) && res[l].link == l;
                    assert(outcomes[j + 1] == rest[j]);
                }
            }
        }
    }
}

/// A converted story whose link was not kept, and that no earlier story in
/// the outcomes shares, is kept exactly as it was converted.
pub proof fn lemma_add_stories_new_story(
    stories: Map<Seq<char>, StoryView>,
    outcomes: Seq<Result<StoryView, TryFromError>>,
    j: int,
    s: StoryView,
)
    requires
        0 <= j < outcomes.len(),
        outcomes[j] == Ok::<StoryView, TryFromError>(s),
        !stories.contains_key(s.link),
        forall|i: int| 0 <= i < j ==> (#[trigger] outcomes[i] matches Ok(t) && t.link != s.link),
    ensures
        add_stories(stories, outcomes).0.contains_key(s.link),
        add_stories(stories, outcomes).0[s.link] == s,
    decreases outcomes.len(),
{
    let rest = outcomes.drop_first();
    if j == 0 {
        let next = stories.insert(s.link, s);
        lemma_add_stories_keeps(next, rest);
        assert(next.contains_key(s.link) && next[s.link] == s);
        assert(add_stories(stories, outcomes) == add_stories(next, rest));
    } else {
        assert(outcomes[0] matches Ok(t) && t.link != s.link);
        if let Ok(t) = outcomes[0] {
            let next = if stories.contains_key(t.link) { stories } else { stories.insert(t.link, t) };
            assert forall|i: int| 0 <= i < j - 1 implies (#[trigger] rest[i] matches Ok(u) && u.link != s.link) by {
                assert(rest[i] == outcomes[i + 1]);
            }
            assert(rest[j - 1] == outcomes[j]);
            lemma_add_stories_new_story(next, rest, j - 1, s);
            assert(add_stories(stories, outcomes) == add_stories(next, rest));
        }
    }
}

/// The first conversion that failed ends the adding, and its error is the
/// result.
pub proof fn lemma_add_stories_first_error(
    stories: Map<Seq<char>, StoryView>,
    outcomes: Seq<Result<StoryView, TryFromError>>,
    j: int,
    e: TryFromError,
)
    requires
        0 <= j < outcomes.len(),
        outcomes[j] == Err::<StoryView, TryFromError>(e),
        forall|i: int| 0 <= i < j ==> #[trigger] outcomes[i] is Ok,
    ensures
        add_stories(stories, outcomes).1 == Err::<(), TryFromError>(e),
    decreases outcomes.len(),
{
    if j > 0 {
        let rest = outcomes.drop_first();
        assert(outcomes[0] is Ok);
        if let Ok(t) = outcomes[0] {
            let next = if stories.contains_key(t.link) { stories } else { stories.insert(t.link, t) };
            assert forall|i: int| 0 <= i < j - 1 implies #[trigger] rest[i] is Ok by {
                assert(rest[i] == outcomes[i + 1]);
            }
            assert(rest[j - 1] == outcomes[j]);
            lemma_add_stories_first_error(next, rest, j - 1, e);
        }
    }
}

/// A story that an ingest adds is one that converting an item of the
/// channel gave, unchanged: it has that item's title and link, and is
/// neither starred nor read.
pub proof fn lemma_ingest_new_stories(
    m: Map<Seq<char>, SubscriptionView>,
    url: Seq<char>,
    channel: ChannelView,
    outcomes: Seq<Result<StoryView, TryFromError>>,
)
    requires
        conversions(channel.items, outcomes),
    ensures
        forall|l: Seq<char>| #[trigger] apply_ingest(m, url, channel.title, outcomes).0[channel.title].stories.contains_key(l)
            && !(m.contains_key(channel.title) && m[channel.title].stories.contains_key(l)) ==> {
                let s = apply_ingest(m, url, channel.title, outcomes).0[channel.title].stories[l];
                &&& s.link == l
                &&& !s.read
                &&& !s.starred
                &&& exists|j: int| 0 <= j < outcomes.len() && outcomes[j] == Ok::<StoryView, TryFromError>(s)
                    && (#[trigger] channel.items[j]).link == Some(l) && channel.items[j].title == Some(s.title)
            },
{
    let title = channel.title;
    let sub = if m.contains_key(title) {
        m[title]
    } else {
        SubscriptionView { name: title, url, stories: Map::empty() }
    };
    lemma_add_stories_from_outcomes(sub.stories, outcomes);
    let after = apply_ingest(m, url, title, outcomes).0[title].stories;
    assert(after == add_stories(sub.stories, outcomes).0);
    assert forall|l: Seq<char>| #[trigger] after.contains_key(l) && !(m.contains_key(title) && m[title].stories.contains_key(l)) implies {
        let s = after[l];
        &&& s.link == l
        &&& !s.read
        &&& !s.starred
        &&& exists|j: int| 0 <= j < outcomes.len() && outcomes[j] == Ok::<StoryView, TryFromError>(s)
            && (#[trigger] channel.items[j]).link == Some(l) && channel.items[j].title == Some(s.title)
    } by {
        assert(!sub.stories.contains_key(l));
        let j = choose|j: int| 0 <= j < outcomes.len() && outcomes[j] == Ok::<StoryView, TryFromError>(after[l]) && after[l].link == l;
        assert(story_outcome(channel.items[j], outcomes[j]));
    }
}

/// Where converting the items of a channel gave a story under a link that
/// the subscription did not keep, and that no earlier item gave, an ingest
/// keeps that story exactly as converted.
pub proof fn lemma_ingest_keeps_converted_story(
    m: Map<Seq<char>, SubscriptionView>,
    url: Seq<char>,
    title: Seq<char>,
    outcomes: Seq<Result<StoryView, TryFromError>>,
    j: int,
    s: StoryView,
)
    requires
        0 <= j < outcomes.len(),
        outcomes[j] == Ok::<StoryView, TryFromError>(s),
        !(m.contains_key(title) && m[title].stories.contains_key(s.link)),
        forall|i: int| 0 <= i < j ==> (#[trigger] outcomes[i] matches Ok(t) && t.link != s.link),
    ensures
        apply_ingest(m, url, title, outcomes).0[title].stories.contains_key(s.link),
        apply_ingest(m, url, title, outcomes).0[title].stories[s.link] == s,
{
    let sub = if m.contains_key(title) {
        m[title]
    } else {
        SubscriptionView { name: title, url, stories: Map::empty() }
    };
    lemma_add_stories_new_story(sub.stories, outcomes, j, s);
}

/// Adding stories succeeds only where every conversion did, and then every
/// story's link is kept.
pub proof fn lemma_add_stories_ok(
    stories: Map<Seq<char>, StoryView>,
    outcomes: Seq<Result<StoryView, TryFromError>>,
)
    requires
        add_stories(stories, outcomes).1 is Ok,
    ensures
        forall|j: int| 0 <= j < outcomes.len() ==> #[trigger] outcomes[j] is Ok,
        forall|j: int| 0 <= j < outcomes.len() ==> (#[trigger] outcomes[j] matches Ok(s)
            && add_stories(stories, outcomes).0.contains_key(s.link)),
    decreases outcomes.len(),
{
    if outcomes.len() > 0 {
        if let Ok(s) = outcomes[0] {
            let next = if stories.contains_key(s.link) { stories } else { stories.insert(s.link, s) };
            let rest = outcomes.drop_first();
            lemma_add_stories_ok(next, rest);
            lemma_add_stories_keeps(next, rest);
            assert(add_stories(stories, outcomes) == add_stories(next, rest));
            assert forall|j: int| 0 <= j < outcomes.len() implies (#[trigger] outcomes[j] matches Ok(t)
                && add_stories(stories, outcomes).0.contains_key(t.link)) by {
                if j > 0 {
                    assert(outcomes[j] == rest[j - 1]);
                } else {
                    assert(next.contains_key(s.link));
                }
            }
        }
    }
}

/// Adding stories that all converted succeeds.
pub proof fn lemma_add_stories_all_ok(
    stories: Map<Seq<char>, StoryView>,
    outcomes: Seq<Result<StoryView, TryFromError>>,
)
    requires
        forall|j: int| 0 <= j < outcomes.len() ==> #[trigger] outcomes[j] is Ok,
    ensures
        add_stories(stories, outcomes).1 is Ok,
    decreases outcomes.len(),
{
    if outcomes.len() > 0 {
        let rest = outcomes.drop_first();
        assert forall|j: int| 0 <= j < rest.len() implies #[trigger] rest[j] is Ok by {
            assert(rest[j] == outcomes[j + 1]);
        }
        if let Ok(s) = outcomes[0] {
            let next = if stories.contains_key(s.link) { stories } else { stories.insert(s.link, s) };
            lemma_add_stories_all_ok(next, rest);
        }
    }
}

/// Adding stories whose links are all kept already changes nothing.
pub proof fn lemma_add_stories_known(
    stories: Map<Seq<char>, StoryView>,
    outcomes: Seq<Result<StoryView, TryFromError>>,
)
    requires
        forall|j: int| 0 <= j < outcomes.len() ==> (#[trigger] outcomes[j] matches Ok(s) ==> stories.contains_key(s.link)),
    ensures
        add_stories(stories, outcomes).0 == stories,
    decreases outcomes.len(),
{
    if outcomes.len() > 0 {
        let rest = outcomes.drop_first();
        assert forall|j: int| 0 <= j < rest.len() implies (#[trigger] rest[j] matches Ok(s) ==> stories.contains_key(s.link)) by {
            assert(rest[j] == outcomes[j + 1]);
        }
        lemma_add_stories_known(stories, rest);
    }
}

/// An ingest keeps every subscription and every story: other subscriptions
/// stay as they were, the one under the title keeps its name, URL and stories,
/// and it is there afterwards even where a conversion failed.
pub proof fn lemma_ingest_keeps(
    m: Map<Seq<char>, SubscriptionView>,
    url: Seq<char>,
    title: Seq<char>,
    outcomes: Seq<Result<StoryView, TryFromError>>,
)
    ensures
        apply_ingest(m, url, title, outcomes).0.dom() == m.dom().insert(title),
        forall|k: Seq<char>| #[trigger] m.contains_key(k) && k != title ==> apply_ingest(m, url, title, outcomes).0[k] == m[k],
        m.contains_key(title) ==> {
            let after = apply_ingest(m, url, title, outcomes).0[title];
            &&& after.name == m[title].name
            &&& after.url == m[title].url
            &&& forall|l: Seq<char>| #[trigger] m[title].stories.contains_key(l) ==> after.stories.contains_key(l)
                && after.stories[l] == m[title].stories[l]
        },
        !m.contains_key(title) ==> apply_ingest(m, url, title, outcomes).0[title].name == title
            && apply_ingest(m, url, title, outcomes).0[title].url == url,
{
    let sub = if m.contains_key(title) {
        m[title]
    } else {
        SubscriptionView { name: title, url, stories: Map::empty() }
    };
    lemma_add_stories_keeps(sub.stories, outcomes);
    assert(apply_ingest(m, url, title, outcomes).0.dom() =~= m.dom().insert(title));
}

/// A successful ingest keeps a story under the link of every item of the channel.
pub proof fn lemma_ingest_ok_has_every_item(
    m: Map<Seq<char>, SubscriptionView>,
    url: Seq<char>,
    channel: ChannelView,
    outcomes: Seq<Result<StoryView, TryFromError>>,
)
    requires
        conversions(channel.items, outcomes),
        apply_ingest(m, url, channel.title, outcomes).1 is Ok,
    ensures
        forall|j: int| 0 <= j < channel.items.len() ==> ((#[trigger] channel.items[j]).link matches Some(l)
            && apply_ingest(m, url, channel.title, outcomes).0[channel.title].stories.contains_key(l)),
{
    let sub = if m.contains_key(channel.title) {
        m[channel.title]
    } else {
        SubscriptionView { name: channel.title, url, stories: Map::empty() }
    };
    lemma_add_stories_ok(sub.stories, outcomes);
    if outcomes.len() < channel.items.len() {
        assert(outcomes[outcomes.len() - 1] is Ok);
    }
    assert forall|j: int| 0 <= j < channel.items.len() implies ((#[trigger] channel.items[j]).link matches Some(l)
        && apply_ingest(m, url, channel.title, outcomes).0[channel.title].stories.contains_key(l)) by {
        assert(story_outcome(channel.items[j], outcomes[j]));
        lemma_story_outcome_link(channel.items[j], outcomes[j]);
        assert(outcomes[j] is Ok);
    }
}

/// Ingesting a channel again after it was ingested without error changes
/// nothing, whatever URL it comes from the second time and however its items
/// convert then, and it succeeds again: whether an item converts rests on
/// its text alone.
pub proof fn lemma_ingest_idempotent(
    m: Map<Seq<char>, SubscriptionView>,
    url: Seq<char>,
    url2: Seq<char>,
    channel: ChannelView,
    first: Seq<Result<StoryView, TryFromError>>,
    second: Seq<Result<StoryView, TryFromError>>,
)
    requires
        conversions(channel.items, first),
        conversions(channel.items, second),
        apply_ingest(m, url, channel.title, first).1 is Ok,
    ensures
        apply_ingest(apply_ingest(m, url, channel.title, first).0, url2, channel.title, second).0
            == apply_ingest(m, url, channel.title, first).0,
        (forall|j: int| 0 <= j < channel.items.len() ==> ((#[trigger] channel.items[j]).pub_date matches Some(d)
            ==> date_form_decided(d)))
            ==> apply_ingest(apply_ingest(m, url, channel.title, first).0, url2, channel.title, second).1 is Ok,
        apply_ingest(apply_ingest(m, url, channel.title, first).0, url2, channel.title, second).1 is Ok,
{
    let m1 = apply_ingest(m, url, channel.title, first).0;
    let title = channel.title;
    lemma_ingest_ok_has_every_item(m, url, channel, first);
    let after = m1[title];
    assert forall|j: int| 0 <= j < second.len() implies (#[trigger] second[j] matches Ok(s) ==> after.stories.contains_key(s.link)) by {
        assert(story_outcome(channel.items[j], second[j]));
        lemma_story_outcome_link(channel.items[j], second[j]);
        assert(channel.items[j].link is Some);
    }
    lemma_add_stories_known(after.stories, second);
    assert(apply_ingest(m1, url2, title, second).0 =~= m1);
    {
        let sub = if m.contains_key(title) {
            m[title]
        } else {
            SubscriptionView { name: title, url, stories: Map::empty() }
        };
        lemma_add_stories_ok(sub.stories, first);
        if first.len() < channel.items.len() {
            assert(first[first.len() - 1] is Ok);
        }
        assert forall|j: int| 0 <= j < second.len() implies #[trigger] second[j] is Ok by {
            assert(first[j] is Ok);
            assert(story_outcome(channel.items[j], first[j]));
            assert(story_outcome(channel.items[j], second[j]));
            assert(channel.items[j].pub_date is Some);
        }
        if second.len() < channel.items.len() {
            assert(second[second.len() - 1] is Ok);
        }
        lemma_add_stories_all_ok(after.stories, second);
    }
}

/// Every story is kept under its own link.
pub open spec fn stories_keyed_by_link(stories: Map<Seq<char>, StoryView>) -> bool {
    forall|l: Seq<char>| #[trigger] stories.contains_key(l) ==> stories[l].link == l
}

/// Every subscription is kept under its own name, and each of its stories
/// under its own link.
pub open spec fn keys_agree(m: Map<Seq<char>, SubscriptionView>) -> bool {
    forall|k: Seq<char>| #[trigger] m.contains_key(k) ==> m[k].name == k && stories_keyed_by_link(m[k].stories)
}

/// Adding stories keeps every story under its own link.
pub proof fn lemma_add_stories_keyed_by_link(
    stories: Map<Seq<char>, StoryView>,
    outcomes: Seq<Result<StoryView, TryFromError>>,
)
    requires
        stories_keyed_by_link(stories),
    ensures
        stories_keyed_by_link(add_stories(stories, outcomes).0),
    decreases outcomes.len(),
{
    if outcomes.len() > 0 {
        if let Ok(s) = outcomes[0] {
            let next = if stories.contains_key(s.link) { stories } else { stories.insert(s.link, s) };
            assert(stories_keyed_by_link(next));
            lemma_add_stories_keyed_by_link(next, outcomes.drop_first());
        }
    }
}

/// An ingest keeps every subscription under its own name and every story
/// under its own link: from the empty manager on, ingests never key a
/// subscription by another name nor a story by another link, so no name
/// stands for two subscriptions and no link for two stories of one.
pub proof fn lemma_ingest_keys_agree(
    m: Map<Seq<char>, SubscriptionView>,
    url: Seq<char>,
    title: Seq<char>,
    outcomes: Seq<Result<StoryView, TryFromError>>,
)
    requires
        keys_agree(m),
    ensures
        keys_agree(apply_ingest(m, url, title, outcomes).0),
{
    let sub = if m.contains_key(title) {
        m[title]
    } else {
        SubscriptionView { name: title, url, stories: Map::empty() }
    };
    assert(stories_keyed_by_link(sub.stories));
    lemma_add_stories_keyed_by_link(sub.stories, outcomes);
}

/// The empty manager's keys agree with what they key.
pub proof fn lemma_empty_keys_agree()
    ensures
        keys_agree(Map::<Seq<char>, SubscriptionView>::empty()),
{
}

/// The number of stories kept by the subscriptions.
pub open spec fn story_count(s: Seq<SubscriptionView>) -> nat
    decreases s.len(),
{
    if s.len() == 0 {
        0
    } else {
        story_count(s.drop_last()) + s.last().stories.dom().len()
    }
}

proof fn lemma_all_stories_len(s: Seq<Subscription>)
    requires
        forall|i: int| 0 <= i < s.len() ==> (#[trigger] s[i]).wf(),
    ensures
        all_stories(s).len() == story_count(subscription_views(s)),
    decreases s.len(),
{
    if s.len() > 0 {
        let t = s.drop_last();
        assert forall|i: int| 0 <= i < t.len() implies (#[trigger] t[i]).wf() by {
            assert(t[i] == s[i]);
        }
        lemma_all_stories_len(t);
        assert(subscription_views(s).drop_last() =~= subscription_views(t));
        s.last().lemma_story_list();
    }
}

/// Keeps subscriptions in memory, each under the title of its channel, with
/// the directory where they are saved.
pub struct Manager {
    directory: PathBuf,
    subscriptions: Vec<(String, Subscription)>,
}

impl View for Manager {
    type V = Map<Seq<char>, SubscriptionView>;

    closed spec fn view(&self) -> Map<Seq<char>, SubscriptionView> {
        entries_map(self.subscriptions@)
    }
}

impl Default for Manager {
    fn default() -> (r: Manager)
        ensures
            r.wf(),
            r@ == Map::<Seq<char>, SubscriptionView>::empty(),
    {
        Manager { directory: empty_path(), subscriptions: Vec::new() }
    }
}

impl Manager {
    /// No title keys two subscriptions, and no link two stories of one: the
    /// invariant of every manager.
    #[verifier::type_invariant]
    pub closed spec fn wf(&self) -> bool {
        &&& keys_distinct(self.subscriptions@)
        &&& forall|i: int| 0 <= i < self.subscriptions@.len() ==> (#[trigger] self.subscriptions@[i]).1.wf()
    }

    pub closed spec fn directory_path(&self) -> PathBuf {
        self.directory
    }

    /// A manager that saves in `directory`, with subscriptions under the given
    /// keys; of two with the same key the later is kept, as in a map filled
    /// in order.
    pub fn from_entries(directory: PathBuf, entries: Vec<(String, Subscription)>) -> (r: Manager)
        requires
            forall|i: int| 0 <= i < entries@.len() ==> (#[trigger] entries@[i]).1.wf(),
        ensures
            r.wf(),
            r@ == entries_map(entries@),
            r.directory_path() == directory,
    {
        let subscriptions = collect_entries(entries);
        proof {
            assert forall|i: int| 0 <= i < subscriptions@.len() implies (#[trigger] subscriptions@[i]).1.wf() by {
                let j = choose|j: int| 0 <= j < entries@.len() && subscriptions@[i].1 == entries@[j].1;
                assert(entries@[j].1.wf());
            }
        }
        Manager { directory, subscriptions }
    }

    /// The directory of the subscriptions file.
    pub fn directory(&self) -> (r: &PathBuf)
        ensures
            *r == self.directory_path(),
    {
        &self.directory
    }

    /// The subscriptions with their keys.
    pub fn entries(&self) -> (r: &Vec<(String, Subscription)>)
        ensures
            keys_distinct(r@),
            entries_map(r@) == self@,
            forall|i: int| 0 <= i < r@.len() ==> (#[trigger] r@[i]).1.wf(),
    {
        proof {
            use_type_invariant(self);
        }
        &self.subscriptions
    }

    /// The subscriptions held, one per key, in an order of no meaning.
    pub closed spec fn subscription_list(&self) -> Seq<Subscription> {
        self.subscriptions@.map_values(|e: (String, Subscription)| e.1)
    }

    /// The stories of all subscriptions held, subscription by subscription.
    pub open spec fn story_list(&self) -> Seq<Story> {
        all_stories(self.subscription_list())
    }

    /// The keys of the subscriptions, in the order of `subscription_list`.
    pub closed spec fn key_list(&self) -> Seq<Seq<char>> {
        self.subscriptions@.map_values(|e: (String, Subscription)| e.0@)
    }

    /// The list of subscriptions holds each subscription of the map once,
    /// beside its key.
    pub proof fn lemma_subscription_list(&self)
        requires
            self.wf(),
        ensures
            self.subscription_list().len() == self@.dom().len(),
            self.key_list().len() == self.subscription_list().len(),
            forall|i: int, j: int| 0 <= i < j < self.key_list().len() ==> self.key_list()[i] != self.key_list()[j],
            forall|i: int| #![trigger self.key_list()[i]] 0 <= i < self.key_list().len() ==> self@.contains_key(self.key_list()[i])
                && self@[self.key_list()[i]] == self.subscription_list()[i]@,
            forall|k: Seq<char>| #[trigger] self@.contains_key(k) ==> exists|i: int|
                0 <= i < self.key_list().len() && #[trigger] self.key_list()[i] == k,
            forall|i: int| 0 <= i < self.subscription_list().len() ==> (#[trigger] self.subscription_list()[i]).wf(),
    {
        let s = self.subscriptions@;
        lemma_entries_map_len(s);
        assert forall|i: int| 0 <= i < self.subscription_list().len() implies (#[trigger] self.subscription_list()[i]).wf() by {
            assert(self.subscription_list()[i] == s[i].1);
        }
        assert forall|i: int| #![trigger self.key_list()[i]] 0 <= i < self.key_list().len() implies self@.contains_key(self.key_list()[i])
            && self@[self.key_list()[i]] == self.subscription_list()[i]@ by {
            lemma_entries_map_value(s, i);
            assert(self.subscription_list()[i] == s[i].1);
        }
        assert forall|k: Seq<char>| #[trigger] self@.contains_key(k) implies exists|i: int|
            0 <= i < self.key_list().len() && #[trigger] self.key_list()[i] == k by {
            lemma_entries_map_dom(s, k);
            let i = choose|i: int| 0 <= i < s.len() && s[i].0@ == k;
            assert(self.key_list()[i] == k);
        }
    }

    /// The list of all stories holds as many stories as the subscriptions
    /// keep: each kept story is listed once.
    pub proof fn lemma_story_list_len(&self)
        requires
            self.wf(),
        ensures
            self.story_list().len() == story_count(subscription_views(self.subscription_list())),
    {
        self.lemma_subscription_list();
        lemma_all_stories_len(self.subscription_list());
    }

    /// Some subscription keeps `s` under some link.
    pub open spec fn keeps_story(&self, s: StoryView) -> bool {
        exists|k: Seq<char>, l: Seq<char>| self@.contains_key(k) && #[trigger] self@[k].stories.contains_key(l) && self@[k].stories[l] == s
    }

    /// The list of all stories holds exactly the stories kept under the
    /// subscriptions.
    pub proof fn lemma_story_list_members(&self)
        requires
            self.wf(),
        ensures
            forall|k: Seq<char>, l: Seq<char>| self@.contains_key(k) && #[trigger] self@[k].stories.contains_key(l)
                ==> exists|i: int| 0 <= i < self.story_list().len() && (#[trigger] self.story_list()[i])@ == self@[k].stories[l],
            forall|i: int| 0 <= i < self.story_list().len() ==> self.keeps_story(#[trigger] self.story_list()[i]@),
    {
        self.lemma_subscription_list();
        let subs = self.subscription_list();
        assert forall|k: Seq<char>, l: Seq<char>| self@.contains_key(k) && #[trigger] self@[k].stories.contains_key(l)
            implies exists|i: int| 0 <= i < self.story_list().len() && (#[trigger] self.story_list()[i])@ == self@[k].stories[l] by {
            let j = choose|j: int| 0 <= j < self.key_list().len() && #[trigger] self.key_list()[j] == k;
            let sub = subs[j];
            assert(sub == self.subscriptions@[j].1);
            assert(sub.wf());
            sub.lemma_story_list();
            let i = choose|i: int| 0 <= i < sub.link_list().len() && #[trigger] sub.link_list()[i] == l;
            lemma_all_stories_has(subs, j, i);
            let n = choose|n: int| 0 <= n < self.story_list().len() && self.story_list()[n] == sub.story_list()[i];
            assert(self.story_list()[n]@ == self@[k].stories[l]);
        }
        assert forall|i: int| 0 <= i < self.story_list().len() implies self.keeps_story(#[trigger] self.story_list()[i]@) by {
            let x = self.story_list()[i];
            assert(all_stories(subs)[i] == x);
            lemma_all_stories_from(subs, x);
            let (j, m) = choose|j: int, m: int| 0 <= j < subs.len() && 0 <= m < subs[j].story_list().len() && subs[j].story_list()[m] == x;
            let sub = subs[j];
            assert(sub == self.subscriptions@[j].1);
            assert(sub.wf());
            sub.lemma_story_list();
            let k = self.key_list()[j];
            let l = sub.link_list()[m];
            assert(self@.contains_key(k) && self@[k] == sub@);
            assert(self@[k].stories.contains_key(l) && self@[k].stories[l] == x@);
        }
    }

    /// After an ingest without error, the story kept under the link of each
    /// item of the channel is in the list of all stories, which `stories`
    /// returns.
    pub proof fn lemma_ingested_items_listed(
        &self,
        before: Map<Seq<char>, SubscriptionView>,
        url: Seq<char>,
        channel: ChannelView,
        outcomes: Seq<Result<StoryView, TryFromError>>,
    )
        requires
            self.wf(),
            conversions(channel.items, outcomes),
            apply_ingest(before, url, channel.title, outcomes).1 is Ok,
            self@ == apply_ingest(before, url, channel.title, outcomes).0,
        ensures
            forall|j: int| 0 <= j < channel.items.len() ==> ((#[trigger] channel.items[j]).link matches Some(l)
                && self@[channel.title].stories.contains_key(l)
                && exists|i: int| 0 <= i < self.story_list().len() && (#[trigger] self.story_list()[i])@ == self@[channel.title].stories[l]),
    {
        lemma_ingest_ok_has_every_item(before, url, channel, outcomes);
        lemma_ingest_keeps(before, url, channel.title, outcomes);
        self.lemma_story_list_members();
        assert forall|j: int| 0 <= j < channel.items.len() implies ((#[trigger] channel.items[j]).link matches Some(l)
            && self@[channel.title].stories.contains_key(l)
            && exists|i: int| 0 <= i < self.story_list().len() && (#[trigger] self.story_list()[i])@ == self@[channel.title].stories[l]) by {
            let l = channel.items[j].link->Some_0;
            assert(self@.contains_key(channel.title));
            assert(self@[channel.title].stories.contains_key(l));
        }
    }

    /// All subscriptions, in order of name.
    pub fn subscriptions(&self) -> (r: Vec<Subscription>)
        ensures
            subscription_views(r@).to_multiset() == subscription_views(self.subscription_list()).to_multiset(),
            by_name(subscription_views(r@)),
            forall|i: int| 0 <= i < r@.len() ==> (#[trigger] r@[i]).wf(),
    {
        proof {
            use_type_invariant(self);
        }
        let mut all: Vec<Subscription> = Vec::new();
        let n = self.subscriptions.len();
        for i in 0..n
            invariant
                n == self.subscriptions@.len(),
                self.wf(),
                all@.len() == i,
                subscription_views(all@) == subscription_views(self.subscription_list().take(i as int)),
                forall|j: int| 0 <= j < all@.len() ==> (#[trigger] all@[j]).wf(),
        {
            let ghost before = all@;
            let dup = self.subscriptions[i].1.duplicate();
            all.push(dup);
            proof {
                assert(self.subscriptions@[i as int].1.wf());
                assert(self.subscription_list()[i as int] == self.subscriptions@[i as int].1);
                let tk = self.subscription_list().take(i + 1);
                assert(self.subscription_list().len() == n);
                assert(tk.len() == i + 1);
                assert(all@.len() == i + 1);
                assert forall|k: int| 0 <= k < all@.len() implies #[trigger] subscription_views(all@)[k] == subscription_views(tk)[k] by {
                    if k < i {
                        assert(all@[k] == before[k]);
                        assert(subscription_views(before)[k] == subscription_views(self.subscription_list().take(i as int))[k]);
                        assert(tk[k] == self.subscription_list().take(i as int)[k]);
                    } else {
                        assert(all@[k] == dup);
                        assert(tk[k] == self.subscriptions@[i as int].1);
                    }
                }
                assert(subscription_views(all@) =~= subscription_views(self.subscription_list().take(i + 1)));
                assert forall|j: int| 0 <= j < all@.len() implies (#[trigger] all@[j]).wf() by {
                    if j < before.len() {
                        assert(all@[j] == before[j]);
                    }
                }
            }
        }
        proof {
            assert(self.subscription_list().take(n as int) =~= self.subscription_list());
        }
        sort_by_name(all)
    }

    /// All stories of all subscriptions, newest first.
    pub fn stories(&self) -> (r: Vec<Story>)
        ensures
            r@.to_multiset() == self.story_list().to_multiset(),
            newest_first(r@),
    {
        proof {
            use_type_invariant(self);
        }
        let mut all: Vec<Story> = Vec::new();
        let n = self.subscriptions.len();
        for i in 0..n
            invariant
                n == self.subscriptions@.len(),
                all@ == all_stories(self.subscription_list().take(i as int)),
        {
            let sub = &self.subscriptions[i].1;
            let m = sub.stories.len();
            for j in 0..m
                invariant
                    m == sub.stories@.len(),
                    all@ == all_stories(self.subscription_list().take(i as int)) + sub.story_list().take(j as int),
            {
                all.push(sub.stories[j].1.clone());
                proof {
                    assert(sub.story_list().take(j + 1) =~= sub.story_list().take(j as int).push(sub.stories@[j as int].1));
                    assert(all@ =~= all_stories(self.subscription_list().take(i as int)) + sub.story_list().take(j + 1));
                }
            }
            proof {
                let l = self.subscription_list();
                assert(l.take(i + 1).drop_last() =~= l.take(i as int));
                assert(l.take(i + 1).last() == *sub);
                assert(sub.story_list().take(m as int) =~= sub.story_list());
            }
        }
        proof {
            assert(self.subscription_list().take(n as int) =~= self.subscription_list());
        }
        sort_newest_first(all)
    }

    /// Ingests a channel whose items have been converted: the stories go to
    /// the subscription under `title`, which is created, named `title` and
    /// with `url`, where there is none; see `apply_ingest`.
    pub fn ingest_stories(&mut self, url: &str, title: &str, outcomes: &Vec<Result<Story, TryFromError>>) -> (r: Result<(), Error>)
        ensures
            final(self).wf(),
            final(self).directory_path() == old(self).directory_path(),
            final(self)@ == apply_ingest(old(self)@, url@, title@, outcome_views(outcomes@)).0,
            ingest_result(r, apply_ingest(old(self)@, url@, title@, outcome_views(outcomes@)).1),
    {
        proof {
            use_type_invariant(&*self);
        }
        let mut subs: Vec<(String, Subscription)> = Vec::new();
        std::mem::swap(&mut subs, &mut self.subscriptions);
        let ghost s = subs@;
        let key = title.to_owned();
        let found = find_key(&subs, &key);
        proof {
            lemma_entries_map_dom(s, title@);
        }
        match found {
            Some(i) => {
                let (k, mut sub) = subs.remove(i);
                proof {
                    lemma_entries_map_value(s, i as int);
                    assert(subs@ =~= s.remove(i as int));
                }
                let r = sub.add_stories(outcomes);
                let e = (k, sub);
                subs.insert(i, e);
                proof {
                    assert(subs@ =~= s.update(i as int, e));
                    lemma_entries_map_update(s, i as int, e);
                    assert forall|j: int| 0 <= j < subs@.len() implies (#[trigger] subs@[j]).1.wf() by {
                        if j != i {
                            assert(subs@[j] == s[j]);
                        }
                    }
                }
                self.subscriptions = subs;
                match r {
                    Ok(()) => Ok(()),
                    Err(x) => Err(Error::Ingest(x)),
                }
            },
            None => {
                let mut sub = Subscription { name: title.to_owned(), url: url.to_owned(), stories: Vec::new() };
                proof {
                    assert(sub@.stories =~= Map::<Seq<char>, StoryView>::empty());
                }
                let r = sub.add_stories(outcomes);
                let e = (key, sub);
                subs.push(e);
                proof {
                    lemma_entries_map_push(s, e);
                    assert forall|a: int, b: int| 0 <= a < b < subs@.len() implies subs@[a].0@ != subs@[b].0@ by {
                        if b == s.len() {
                            assert(s[a].0@ != e.0@);
                        }
                    }
                    assert forall|j: int| 0 <= j < subs@.len() implies (#[trigger] subs@[j]).1.wf() by {
                        if j < s.len() {
                            assert(subs@[j] == s[j]);
                        }
                    }
                }
                self.subscriptions = subs;
                match r {
                    Ok(()) => Ok(()),
                    Err(x) => Err(Error::Ingest(x)),
                }
            },
        }
    }

    /// Ingests a channel fetched from `url`: its items become stories of the
    /// subscription under the channel's title, up to the first item that
    /// cannot become one, whose error is returned.
    pub fn ingest(&mut self, url: &str, channel: &Channel) -> (r: Result<(), Error>)
        ensures
            final(self).wf(),
            final(self).directory_path() == old(self).directory_path(),
            exists|outcomes: Seq<Result<StoryView, TryFromError>>|
                {
                    &&& conversions(channel@.items, outcomes)
                    &&& final(self)@ == apply_ingest(old(self)@, url@, channel@.title, outcomes).0
                    &&& ingest_result(r, apply_ingest(old(self)@, url@, channel@.title, outcomes).1)
                },
    {
        let n = channel.items.len();
        let mut outcomes: Vec<Result<Story, TryFromError>> = Vec::new();
        let mut failed = false;
        let mut i: usize = 0;
        while i < n && !failed
            invariant
                n == channel.items@.len(),
                i <= n,
                outcomes@.len() == i,
                forall|j: int| 0 <= j < i ==> story_outcome(#[trigger] channel@.items[j], outcome_view(outcomes@[j])),
                forall|j: int| 0 <= j < i ==> (#[trigger] outcomes@[j] is Ok) || (failed && j == i - 1),
                failed ==> i > 0 && outcomes@[i - 1] is Err,
            decreases n - i,
        {
            let o = Story::from_item(&channel.items[i]);
            failed = o.is_err();
            outcomes.push(o);
            i += 1;
        }
        let ghost ov = outcome_views(outcomes@);
        proof {
            assert forall|j: int| 0 <= j < ov.len() implies story_outcome(#[trigger] channel@.items[j], ov[j]) by {
                assert(story_outcome(channel@.items[j], outcome_view(outcomes@[j])));
            }
            assert forall|j: int| 0 <= j < ov.len() - 1 implies #[trigger] ov[j] is Ok by {
                assert(outcomes@[j] is Ok);
            }
            assert(conversions(channel@.items, ov));
        }
        self.ingest_stories(url, channel.title.as_str(), &outcomes)
    }
}

} // verus!
