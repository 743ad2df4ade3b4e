use std::collections::HashMap;
use parse_lib::article_parser::{ArticleParser, ContentPage};

fn make_content_page(title: &str, links: Vec<u64>) -> ContentPage {
    ContentPage {
        links,
        title: title.to_string(),
        title_hash: ArticleParser::get_title_hash(title),
    }
}

#[test]
fn merge_parsers() {
    let mut parser1 = ArticleParser::new();
    parser1.insert_redirect(1, 2);
    parser1.insert_redirect(3, 4);
    parser1.push_content_page(make_content_page("Article 1", vec![123]));
    parser1.push_content_page(make_content_page("Article 2", vec![456]));

    let mut parser2 = ArticleParser::new();
    parser2.insert_redirect(5, 6);
    parser2.insert_redirect(7, 8);
    parser2.push_content_page(make_content_page("Article 3", vec![789]));
    parser2.push_content_page(make_content_page("Article 4", vec![101]));

    parser1.merge_with(parser2);

    assert_eq!(
        parser1.redirects(),
        &HashMap::from([(1, 2), (3, 4), (5, 6), (7, 8)])
    );
    assert_eq!(
        parser1.content_pages(),
        &vec![
            make_content_page("Article 1", vec![123]),
            make_content_page("Article 2", vec![456]),
            make_content_page("Article 3", vec![789]),
            make_content_page("Article 4", vec![101]),
        ]
    );
}

#[test]
fn merge_overlapping_keys_prefer_incoming() {
    let mut parser1 = ArticleParser::new();
    parser1.insert_redirect(1, 2);
    parser1.insert_redirect(3, 4);

    let mut parser2 = ArticleParser::new();
    parser2.insert_redirect(3, 9);
    parser2.insert_redirect(5, 6);

    parser1.merge_with(parser2);

    assert_eq!(
        parser1.redirects(),
        &HashMap::from([(1, 2), (3, 9), (5, 6)])
    );
}
