use std::collections::HashMap;
use parse_lib::article_parser::{ArticleParser, NoProgress};
use parse_lib::article_parser::events::{LocatedEvent, RawEvent};

const FIXTURE: &str = "<mediawiki>\n  <siteinfo>\n    <sitename>Example</sitename>\n  </siteinfo>\n  <page>\n    <title>Article 1</title>\n    <text>Link to [[Article 2]] and again [[Article 2]] then [[Article 3]].</text>\n  </page>\n  <page>\n    <title>Article 2</title>\n    <text>Back to [[Article 1]].</text>\n  </page>\n  <page>\n    <title>Article 3</title>\n    <text>No links at all.</text>\n  </page>\n  <page>\n    <title>Article 4</title>\n    <redirect title=\"Article 1\"/>\n    <text>#REDIRECT [[Article 1]]</text>\n  </page>\n</mediawiki>\n";

#[test]
fn parse_xml_test() {
    let mut parser = ArticleParser::new();
    let mut progress = NoProgress;
    parser.parse_xml(FIXTURE.as_bytes(), None, &mut progress);

    let title_to_hash: HashMap<String, u64> = HashMap::from_iter(
        parser.content_pages().iter().map(|page| (page.title.clone(), page.title_hash)),
    );

    // Content pages
    assert_eq!(parser.content_pages().len(), 3);

    assert_eq!(parser.content_pages()[0].title, "Article 1");
    assert_eq!(
        parser.content_pages()[0].links,
        vec![
            title_to_hash["Article 2"],
            title_to_hash["Article 2"],
            title_to_hash["Article 3"]
        ]
    );

    assert_eq!(parser.content_pages()[1].title, "Article 2");
    assert_eq!(parser.content_pages()[1].links, vec![title_to_hash["Article 1"]]);

    assert_eq!(parser.content_pages()[2].title, "Article 3");
    assert_eq!(parser.content_pages()[2].links, vec![]);

    // Redirects
    assert_eq!(parser.redirects().len(), 1);
    assert_eq!(
        parser.redirects().values().next().unwrap().clone(),
        title_to_hash["Article 1"]
    );
    assert_eq!(
        parser.redirects().get(&ArticleParser::get_title_hash("Article 4")),
        Some(&title_to_hash["Article 1"])
    );
}

#[test]
fn parse_xml_bounded() {
    // A ceiling that falls inside page 2's text: page 2 is still finished,
    // page 3 and the redirect lie past the ceiling and are not parsed.
    let ceiling = FIXTURE.find("Back to").expect("fixture changed") as u64;
    let mut parser = ArticleParser::new();
    let mut progress = NoProgress;
    parser.parse_xml(FIXTURE.as_bytes(), Some(ceiling), &mut progress);

    assert_eq!(parser.content_pages().len(), 2);
    assert_eq!(parser.content_pages()[0].title, "Article 1");
    assert_eq!(parser.content_pages()[0].links.len(), 3);
    assert_eq!(parser.content_pages()[1].title, "Article 2");
    assert_eq!(parser.content_pages()[1].links.len(), 1);

    assert_eq!(parser.redirects().len(), 0);
}

#[test]
fn parse_xml_realigns_after_partial_record() {
    // A parse that starts inside page 1 skips the partial fragment and picks
    // up at the next page-start marker.
    let offset = FIXTURE.find("again").expect("fixture changed");
    let mut parser = ArticleParser::new();
    let mut progress = NoProgress;
    parser.parse_xml(&FIXTURE.as_bytes()[offset..], None, &mut progress);

    assert_eq!(parser.content_pages().len(), 2);
    assert_eq!(parser.content_pages()[0].title, "Article 2");
    assert_eq!(parser.content_pages()[1].title, "Article 3");
    assert_eq!(parser.redirects().len(), 1);
}

#[test]
fn parse_xml_empty_title_page() {
    let source = "<page><text>See [[Somewhere]].</text></page>";
    let mut parser = ArticleParser::new();
    let mut progress = NoProgress;
    parser.parse_xml(source.as_bytes(), None, &mut progress);

    assert_eq!(parser.content_pages().len(), 1);
    assert_eq!(parser.content_pages()[0].title, "");
    assert_eq!(parser.content_pages()[0].title_hash, ArticleParser::get_title_hash(""));
    assert_eq!(
        parser.content_pages()[0].links,
        vec![ArticleParser::get_title_hash("Somewhere")]
    );
}

#[test]
fn parse_xml_unterminated_page_is_committed() {
    // End of input closes every open scope: the dangling page still yields a
    // record.
    let source = "<page><title>Loose End</title><text>[[Out]]";
    let mut parser = ArticleParser::new();
    let mut progress = NoProgress;
    parser.parse_xml(source.as_bytes(), None, &mut progress);

    assert_eq!(parser.content_pages().len(), 1);
    assert_eq!(parser.content_pages()[0].title, "Loose End");
    assert_eq!(
        parser.content_pages()[0].links,
        vec![ArticleParser::get_title_hash("Out")]
    );
}

#[test]
fn parse_events_builds_expected_records() {
    let events = vec![
        LocatedEvent { offset: 1, event: RawEvent::Start { name: b"page".to_vec() } },
        LocatedEvent { offset: 2, event: RawEvent::Start { name: b"title".to_vec() } },
        LocatedEvent { offset: 3, event: RawEvent::Text { raw: b"Alpha_One".to_vec() } },
        LocatedEvent { offset: 4, event: RawEvent::End { name: b"title".to_vec() } },
        LocatedEvent { offset: 5, event: RawEvent::Start { name: b"text".to_vec() } },
        LocatedEvent { offset: 6, event: RawEvent::Text { raw: b"See [[Beta]] twice [[Beta]]".to_vec() } },
        LocatedEvent { offset: 7, event: RawEvent::End { name: b"text".to_vec() } },
        LocatedEvent { offset: 8, event: RawEvent::End { name: b"page".to_vec() } },
        LocatedEvent {
            offset: 9,
            event: RawEvent::Empty {
                name: b"ignored".to_vec(),
                attrs: vec![],
            },
        },
        LocatedEvent { offset: 10, event: RawEvent::Start { name: b"page".to_vec() } },
        LocatedEvent {
            offset: 11,
            event: RawEvent::Empty {
                name: b"redirect".to_vec(),
                attrs: vec![(b"title".to_vec(), b"Alpha One".to_vec())],
            },
        },
        LocatedEvent { offset: 12, event: RawEvent::Start { name: b"title".to_vec() } },
        LocatedEvent { offset: 13, event: RawEvent::Text { raw: b"Gamma".to_vec() } },
        LocatedEvent { offset: 14, event: RawEvent::End { name: b"title".to_vec() } },
        LocatedEvent { offset: 15, event: RawEvent::End { name: b"page".to_vec() } },
        LocatedEvent { offset: 16, event: RawEvent::EndOfInput },
    ];

    let mut parser = ArticleParser::new();
    let mut progress = NoProgress;
    parser.parse_events(&events, None, &mut progress);

    // Underscores in the title are rewritten to spaces before hashing.
    assert_eq!(parser.content_pages().len(), 1);
    assert_eq!(parser.content_pages()[0].title, "Alpha One");
    assert_eq!(
        parser.content_pages()[0].title_hash,
        ArticleParser::get_title_hash("Alpha One")
    );
    assert_eq!(
        parser.content_pages()[0].links,
        vec![
            ArticleParser::get_title_hash("Beta"),
            ArticleParser::get_title_hash("Beta")
        ]
    );

    // The second page carried a redirect marker and becomes a mapping entry
    // pointing at the first page's hash.
    assert_eq!(parser.redirects().len(), 1);
    assert_eq!(
        parser.redirects().get(&ArticleParser::get_title_hash("Gamma")),
        Some(&ArticleParser::get_title_hash("Alpha One"))
    );
}

#[test]
fn parse_events_bound_checked_between_pages() {
    let events = vec![
        LocatedEvent { offset: 10, event: RawEvent::Start { name: b"page".to_vec() } },
        LocatedEvent { offset: 20, event: RawEvent::Start { name: b"title".to_vec() } },
        LocatedEvent { offset: 30, event: RawEvent::Text { raw: b"Kept".to_vec() } },
        LocatedEvent { offset: 40, event: RawEvent::End { name: b"title".to_vec() } },
        LocatedEvent { offset: 50, event: RawEvent::End { name: b"page".to_vec() } },
        LocatedEvent { offset: 60, event: RawEvent::Start { name: b"page".to_vec() } },
        LocatedEvent { offset: 70, event: RawEvent::Start { name: b"title".to_vec() } },
        LocatedEvent { offset: 80, event: RawEvent::Text { raw: b"Dropped".to_vec() } },
        LocatedEvent { offset: 90, event: RawEvent::End { name: b"title".to_vec() } },
        LocatedEvent { offset: 100, event: RawEvent::End { name: b"page".to_vec() } },
        LocatedEvent { offset: 110, event: RawEvent::EndOfInput },
    ];

    // The ceiling falls inside the first page, which is still finished; the
    // scan stops before the second page starts.
    let mut parser = ArticleParser::new();
    let mut progress = NoProgress;
    parser.parse_events(&events, Some(25), &mut progress);

    assert_eq!(parser.content_pages().len(), 1);
    assert_eq!(parser.content_pages()[0].title, "Kept");
}

#[test]
fn parse_xml_resolves_references() {
    // Escaped characters in titles and body text are resolved before hashing
    // and link extraction.
    let source = "<page><title>AT&amp;T</title><text>See [[Foo &amp; Bar]] and [[Tom &amp; Jerry|both]], x &lt; y.</text></page>";
    let mut parser = ArticleParser::new();
    let mut progress = NoProgress;
    parser.parse_xml(source.as_bytes(), None, &mut progress);

    assert_eq!(parser.content_pages().len(), 1);
    assert_eq!(parser.content_pages()[0].title, "AT&T");
    assert_eq!(
        parser.content_pages()[0].title_hash,
        ArticleParser::get_title_hash("AT&T")
    );
    assert_eq!(
        parser.content_pages()[0].links,
        vec![
            ArticleParser::get_title_hash("Foo & Bar"),
            ArticleParser::get_title_hash("Tom & Jerry"),
        ]
    );
}

#[test]
fn parse_xml_keeps_unknown_reference_raw() {
    // A reference that cannot be resolved is kept as it stands rather than
    // ending the run.
    let source = "<page><title>A&bogus;B</title></page>";
    let mut parser = ArticleParser::new();
    let mut progress = NoProgress;
    parser.parse_xml(source.as_bytes(), None, &mut progress);

    assert_eq!(parser.content_pages().len(), 1);
    assert_eq!(parser.content_pages()[0].title, "A&bogus;B");
}

#[test]
fn parse_xml_input_cut_inside_tag_is_not_fatal() {
    // The input ends in the middle of a tag: the reader's fault acts as end
    // of input, so the open page is still committed and the run ends
    // normally.
    let source = "<page><title>Cut Short</title><text>See [[Kept]].</text><ti";
    let mut parser = ArticleParser::new();
    let mut progress = NoProgress;
    parser.parse_xml(source.as_bytes(), None, &mut progress);

    assert_eq!(parser.content_pages().len(), 1);
    assert_eq!(parser.content_pages()[0].title, "Cut Short");
    assert_eq!(
        parser.content_pages()[0].links,
        vec![ArticleParser::get_title_hash("Kept")]
    );
    assert_eq!(parser.redirects().len(), 0);
}
