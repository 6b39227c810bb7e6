//! Feed documents: what the reader takes from an RSS channel.

use reqwest::Error as RequestError;
use rss::Error as RssError;
use vstd::prelude::*;

use crate::text::opt_chars;

verus! {

/// The error of the `rss` crate.
#[verifier::external_type_specification]
#[verifier::external_body]
pub struct ExRssError(RssError);

/// The error of the `reqwest` crate.
#[verifier::external_type_specification]
#[verifier::external_body]
pub struct ExRequestError(RequestError);

/// Why a feed could not be had.
#[derive(Debug)]
pub enum Error {
    /// Fetching the document failed.
    Request(RequestError),
    /// The document is not an RSS channel.
    Rss(RssError),
}

/// An entry of a channel, with the parts that become a story.
#[derive(Debug, PartialEq, Eq)]
pub struct Item {
    pub title: Option<String>,
    pub link: Option<String>,
    pub description: Option<String>,
    /// The full content (`content:encoded`).
    pub content: Option<String>,
    pub pub_date: Option<String>,
}

pub struct ItemView {
    pub title: Option<Seq<char>>,
    pub link: Option<Seq<char>>,
    pub description: Option<Seq<char>>,
    pub content: Option<Seq<char>>,
    pub pub_date: Option<Seq<char>>,
}

impl View for Item {
    type V = ItemView;

    open spec fn view(&self) -> ItemView {
        ItemView {
            title: opt_chars(self.title),
            link: opt_chars(self.link),
            description: opt_chars(self.description),
            content: opt_chars(self.content),
            pub_date: opt_chars(self.pub_date),
        }
    }
}

/// A channel: its title and its items, in document order.
#[derive(Debug, PartialEq, Eq)]
pub struct Channel {
    pub title: String,
    pub items: Vec<Item>,
}

pub struct ChannelView {
    pub title: Seq<char>,
    pub items: Seq<ItemView>,
}

impl View for Channel {
    type V = ChannelView;

    open spec fn view(&self) -> ChannelView {
        ChannelView { title: self.title@, items: self.items@.map_values(|i: Item| i@) }
    }
}

impl Item {
    /// An item with no parts.
    pub fn new() -> (r: Item)
        ensures
            r@ == (ItemView {
                title: None,
                link: None,
                description: None,
                content: None,
                pub_date: None,
            }),
    {
        Item { title: None, link: None, description: None, content: None, pub_date: None }
    }

    pub fn set_title(&mut self, title: String)
        ensures
            final(self)@ == (ItemView { title: Some(title@), ..old(self)@ }),
    {
        self.title = Some(title);
    }

    pub fn set_link(&mut self, link: String)
        ensures
            final(self)@ == (ItemView { link: Some(link@), ..old(self)@ }),
    {
        self.link = Some(link);
    }

    pub fn set_description(&mut self, description: String)
        ensures
            final(self)@ == (ItemView { description: Some(description@), ..old(self)@ }),
    {
        self.description = Some(description);
    }

    pub fn set_content(&mut self, content: String)
        ensures
            final(self)@ == (ItemView { content: Some(content@), ..old(self)@ }),
    {
        self.content = Some(content);
    }

    pub fn set_pub_date(&mut self, pub_date: String)
        ensures
            final(self)@ == (ItemView { pub_date: Some(pub_date@), ..old(self)@ }),
    {
        self.pub_date = Some(pub_date);
    }
}

impl Channel {
    /// A channel with an empty title and no items.
    pub fn new() -> (r: Channel)
        ensures
            r@.title.len() == 0,
            r@.items.len() == 0,
    {
        Channel { title: String::new(), items: Vec::new() }
    }

    pub fn set_title(&mut self, title: &str)
        ensures
            final(self)@.title == title@,
            final(self)@.items == old(self)@.items,
    {
        self.title = title.to_owned();
    }

    pub fn set_items(&mut self, items: Vec<Item>)
        ensures
            final(self)@.title == old(self)@.title,
            final(self)@.items == items@.map_values(|i: Item| i@),
    {
        self.items = items;
    }
}

/// What `rss::Channel::read_from` makes of a document: `None` where it fails,
/// else the channel's title and, for each of its items in order, the title,
/// link, description, content and publication date.
pub uninterp spec fn spec_read_channel(bytes: Seq<u8>) -> Option<ChannelView>;

/// Calls `rss::Channel::read_from` on the bytes of a document and keeps, of the
/// channel, what `spec_read_channel` lists. Claimed: success and the parts kept
/// are a function of the bytes alone. Which error comes back is left unsaid.
#[verifier::external_body]
fn rss_read_from(bytes: &[u8]) -> (r: Result<Channel, RssError>)
    ensures
        r is Ok <==> spec_read_channel(bytes@) is Some,
        r matches Ok(c) ==> spec_read_channel(bytes@) == Some(c@),
{
    let c = rss::Channel::read_from(bytes)?;
    let items = c.items().iter().map(|i| Item {
        title: i.title().map(String::from),
        link: i.link().map(String::from),
        description: i.description().map(String::from),
        content: i.content().map(String::from),
        pub_date: i.pub_date().map(String::from),
    });
    Ok(Channel { title: c.title().to_string(), items: items.collect() })
}

/// Reads an RSS document.
pub fn read_channel(bytes: &[u8]) -> (r: Result<Channel, Error>)
    ensures
        r is Ok <==> spec_read_channel(bytes@) is Some,
        r matches Ok(c) ==> spec_read_channel(bytes@) == Some(c@),
        r matches Err(e) ==> e is Rss,
{
    match rss_read_from(bytes) {
        Ok(c) => Ok(c),
        Err(e) => Err(Error::Rss(e)),
    }
}

} // verus!
