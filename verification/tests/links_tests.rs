use parse_lib::article_parser::ArticleParser;

#[test]
fn get_links() {
    let example_article = "This is a [[Wikipedia]] article. It can contain many [[Web Link#Web|links]] that have [[Alias|aliases]] and also reference files, categories and interlanguage links: [[File:A file]], [[Category::A Category]], [[fr:french]]. These should not be included. Hopefully it doesn't die if there's a non-ended link: [[";

    assert_eq!(
        ArticleParser::get_links(example_article),
        Vec::from(["Wikipedia", "Web Link", "Alias"].map(|x| ArticleParser::get_title_hash(x)))
    );
}

#[test]
fn get_links_cut_at_first_marker() {
    // The candidate is cut at the first `#` or `|`, whichever comes first.
    assert_eq!(
        ArticleParser::get_links("[[A|B#C]]"),
        vec![ArticleParser::get_title_hash("A")],
    );
    assert_eq!(
        ArticleParser::get_links("[[A#B|C]]"),
        vec![ArticleParser::get_title_hash("A")],
    );
}

#[test]
fn get_links_duplicates_kept_in_order() {
    assert_eq!(
        ArticleParser::get_links("[[B]] then [[A]] then [[B]]"),
        vec![
            ArticleParser::get_title_hash("B"),
            ArticleParser::get_title_hash("A"),
            ArticleParser::get_title_hash("B"),
        ],
    );
}

#[test]
fn get_links_empty_and_unterminated() {
    assert_eq!(ArticleParser::get_links(""), Vec::<u64>::new());
    assert_eq!(ArticleParser::get_links("no links here"), Vec::<u64>::new());
    assert_eq!(ArticleParser::get_links("broken [[tail"), Vec::<u64>::new());
}

#[test]
fn get_links_namespaced_skipped() {
    assert_eq!(
        ArticleParser::get_links("[[File:X]] [[Real]] [[de:Y]]"),
        vec![ArticleParser::get_title_hash("Real")],
    );
}
