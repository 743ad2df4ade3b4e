use parse_lib::article_parser::ArticleParser;

#[test]
fn hash_matches() {
    // Should reference same article
    let link1 = "WikipediaLink";
    let link1_alias = "wikipediaLink";

    // the L case is different and not the first character, so should be different
    let link2 = "wikipedialink";
    let link3 = "NotTheSame";

    let link1_hash = ArticleParser::get_title_hash(link1);
    assert_eq!(link1_hash, ArticleParser::get_title_hash(link1));
    assert_eq!(link1_hash, ArticleParser::get_title_hash(link1_alias));

    assert_ne!(link1_hash, ArticleParser::get_title_hash(link2));
    assert_ne!(link1_hash, ArticleParser::get_title_hash(link3));
}

#[test]
fn hash_first_letter_multibyte() {
    // The first scalar may be wider than one byte; its uppercase form must
    // fold with the already-capitalized spelling.
    assert_eq!(
        ArticleParser::get_title_hash("\u{e9}cole"),
        ArticleParser::get_title_hash("\u{c9}cole"),
    );
    assert_ne!(
        ArticleParser::get_title_hash("\u{e9}cole"),
        ArticleParser::get_title_hash("\u{e9}colE"),
    );
}

#[test]
fn hash_empty_title() {
    // An empty title is hashed as it stands and is stable.
    assert_eq!(
        ArticleParser::get_title_hash(""),
        ArticleParser::get_title_hash(""),
    );
    assert_ne!(
        ArticleParser::get_title_hash(""),
        ArticleParser::get_title_hash("A"),
    );
}
