use std::collections::HashMap;
use parse_lib::article_parser::{ArticleParser, ContentPage};

fn page_with_links(title: &str, links: Vec<u64>) -> ContentPage {
    ContentPage {
        links,
        title: title.to_string(),
        title_hash: ArticleParser::get_title_hash(title),
    }
}

#[test]
fn repair_flattens_chain() {
    // A -> B -> C where C is not a key: after repair both entries point
    // directly at C and every link to A or B is rewritten to C.
    let (a, b, c) = (1u64, 2u64, 3u64);
    let mut parser = ArticleParser::new();
    parser.insert_redirect(a, b);
    parser.insert_redirect(b, c);
    parser.push_content_page(page_with_links("P", vec![a, b, 77]));

    let count = parser.repair_redirects();

    assert_eq!(count, 2);
    assert_eq!(parser.redirects(), &HashMap::from([(a, c), (b, c)]));
    assert_eq!(parser.content_pages()[0].links, vec![c, c, 77]);
}

#[test]
fn repair_cycle_terminates_and_leaves_links() {
    // A -> B -> A: the walk must stop instead of hanging, and leave both the
    // entries and the links unresolved.
    let (a, b) = (1u64, 2u64);
    let mut parser = ArticleParser::new();
    parser.insert_redirect(a, b);
    parser.insert_redirect(b, a);
    parser.push_content_page(page_with_links("P", vec![a, 9]));

    let count = parser.repair_redirects();

    assert_eq!(count, 0);
    assert_eq!(parser.redirects(), &HashMap::from([(a, b), (b, a)]));
    assert_eq!(parser.content_pages()[0].links, vec![a, 9]);
}

#[test]
fn repair_self_loop_terminates() {
    let a = 4u64;
    let mut parser = ArticleParser::new();
    parser.insert_redirect(a, a);
    parser.push_content_page(page_with_links("P", vec![a]));

    let count = parser.repair_redirects();

    assert_eq!(count, 0);
    assert_eq!(parser.redirects(), &HashMap::from([(a, a)]));
    assert_eq!(parser.content_pages()[0].links, vec![a]);
}

#[test]
fn repair_twice_is_noop() {
    let mut parser = ArticleParser::new();
    parser.insert_redirect(1, 2);
    parser.insert_redirect(2, 3);
    parser.insert_redirect(10, 11);
    // a cycle beside the chains
    parser.insert_redirect(20, 21);
    parser.insert_redirect(21, 20);
    parser.push_content_page(page_with_links("P", vec![1, 10, 20, 42]));
    parser.push_content_page(page_with_links("Q", vec![2]));

    let first = parser.repair_redirects();
    assert!(first > 0);

    let pages_after_first = parser.content_pages().clone();
    let redirects_after_first = parser.redirects().clone();

    let second = parser.repair_redirects();
    assert_eq!(second, 0);
    assert_eq!(parser.content_pages(), &pages_after_first);
    assert_eq!(parser.redirects(), &redirects_after_first);
}
