use crab_reader::source::{read_channel, Error};

// XKCD is always a good example
const XML: &str = r#"<?xml version="1.0" encoding="utf-8"?>
    <rss version="2.0"><channel><title>xkcd.com</title><link>https://xkcd.com/</link><description>xkcd.com: A webcomic of romance and math humor.</description><language>en</language><item><title>Flatten the Planets</title><link>https://xkcd.com/2750/</link><description>&lt;img src="https://imgs.xkcd.com/comics/flatten_the_planets.png" title="We'll turn the asteroid belt into ball bearings to go between different rings orbiting at different speeds." alt="We'll turn the asteroid belt into ball bearings to go between different rings orbiting at different speeds." /&gt;</description><pubDate>Wed, 15 Mar 2023 04:00:00 -0000</pubDate><guid>https://xkcd.com/2750/</guid></item><item><title>Lymphocytes</title><link>https://xkcd.com/2749/</link><description>&lt;img src="https://imgs.xkcd.com/comics/lymphocytes.png" title="It's very hard to detect, but recent studies have determined that when plasma B cells are producing antibodies, they go 'pew pew pew'" alt="It's very hard to detect, but recent studies have determined that when plasma B cells are producing antibodies, they go 'pew pew pew'" /&gt;</description><pubDate>Mon, 13 Mar 2023 04:00:00 -0000</pubDate><guid>https://xkcd.com/2749/</guid></item><item><title>Radians are Cursed</title><link>https://xkcd.com/2748/</link><description>&lt;img src="https://imgs.xkcd.com/comics/radians_are_cursed.png" title="Phil Plait once pointed out that you can calculate the total angular area of the sky this way. If the sky is a sphere with radius 57.3 degrees, then its area is 4*pi*r^2=41,253 square degrees. This makes dimensional analysts SO mad, but you can't argue with results." alt="Phil Plait once pointed out that you can calculate the total angular area of the sky this way. If the sky is a sphere with radius 57.3 degrees, then its area is 4*pi*r^2=41,253 square degrees. This makes dimensional analysts SO mad, but you can't argue with results." /&gt;</description><pubDate>Fri, 10 Mar 2023 05:00:00 -0000</pubDate><guid>https://xkcd.com/2748/</guid></item><item><title>Presents for Biologists</title><link>https://xkcd.com/2747/</link><description>&lt;img src="https://imgs.xkcd.com/comics/presents_for_biologists.png" title="A lot of these are actually non-venomous, but I can see which species you mistook them for. If you pause the crane for a sec I can give you some ID pointers for next time!" alt="A lot of these are actually non-venomous, but I can see which species you mistook them for. If you pause the crane for a sec I can give you some ID pointers for next time!" /&gt;</description><pubDate>Wed, 08 Mar 2023 05:00:00 -0000</pubDate><guid>https://xkcd.com/2747/</guid></item></channel></rss>"#;

#[test]
fn reads_a_channel_document() {
    let channel = read_channel(XML.as_bytes()).unwrap();
    assert_eq!(channel.title, "xkcd.com");
    assert_eq!(channel.items.len(), 4);
    let item = &channel.items[0];
    assert_eq!(item.title.as_deref(), Some("Flatten the Planets"));
    assert_eq!(item.link.as_deref(), Some("https://xkcd.com/2750/"));
    assert_eq!(
        item.description.as_deref(),
        Some(
            r#"<img src="https://imgs.xkcd.com/comics/flatten_the_planets.png" title="We'll turn the asteroid belt into ball bearings to go between different rings orbiting at different speeds." alt="We'll turn the asteroid belt into ball bearings to go between different rings orbiting at different speeds." />"#
        )
    );
    assert_eq!(item.pub_date.as_deref(), Some("Wed, 15 Mar 2023 04:00:00 -0000"));
    assert_eq!(item.content, None);
}

#[test]
fn a_document_that_is_not_rss_is_refused() {
    match read_channel(b"<html><body>hello</body></html>") {
        Err(Error::Rss(_)) => {}
        other => panic!("unexpected outcome {:?}", other.map(|c| c.title)),
    }
    assert!(read_channel(b"").is_err());
}

#[test]
fn a_read_channel_can_be_ingested() {
    let channel = read_channel(XML.as_bytes()).unwrap();
    let mut manager = crab_reader::feed::Manager::default();
    manager.ingest("https://xkcd.com/rss.xml", &channel).unwrap();
    let stories = manager.stories();
    assert_eq!(stories.len(), 4);
    assert_eq!(stories[0].title, "Flatten the Planets");
    assert_eq!(stories[3].title, "Presents for Biologists");
    assert!(stories[0].content.starts_with("<img src=\"https://imgs.xkcd.com/comics/flatten_the_planets.png\""));
}
