use parse_lib::article_parser::{ArticleParser, ContentPage};
use parse_lib::article_parser::pool::{merge_all, partition_ranges};

#[test]
fn partition_even_split_with_open_tail() {
    let ranges = partition_ranges(103, 4);
    assert_eq!(ranges.len(), 4);
    assert_eq!(ranges[0].start, 0);
    assert_eq!(ranges[1].start, 25);
    assert_eq!(ranges[2].start, 50);
    assert_eq!(ranges[3].start, 75);
    assert_eq!(ranges[0].budget, Some(25));
    assert_eq!(ranges[1].budget, Some(25));
    assert_eq!(ranges[2].budget, Some(25));
    // the final worker runs to end of input and absorbs the remainder
    assert_eq!(ranges[3].budget, None);
}

#[test]
fn partition_single_worker() {
    let ranges = partition_ranges(10, 1);
    assert_eq!(ranges.len(), 1);
    assert_eq!(ranges[0].start, 0);
    assert_eq!(ranges[0].budget, None);
}

fn page(title: &str, links: Vec<u64>) -> ContentPage {
    ContentPage {
        links,
        title: title.to_string(),
        title_hash: ArticleParser::get_title_hash(title),
    }
}

#[test]
fn merge_all_keeps_worker_order() {
    let mut p0 = ArticleParser::new();
    p0.push_content_page(page("A", vec![1]));
    p0.insert_redirect(1, 2);
    let mut p1 = ArticleParser::new();
    p1.push_content_page(page("B", vec![2]));
    p1.insert_redirect(3, 4);
    let mut p2 = ArticleParser::new();
    p2.push_content_page(page("C", vec![]));

    let full = merge_all(vec![p0, p1, p2]);

    let titles: Vec<&str> = full.content_pages().iter().map(|p| p.title.as_str()).collect();
    assert_eq!(titles, vec!["A", "B", "C"]);
    assert_eq!(full.redirects().len(), 2);
    assert_eq!(full.redirects().get(&1), Some(&2));
    assert_eq!(full.redirects().get(&3), Some(&4));
}
