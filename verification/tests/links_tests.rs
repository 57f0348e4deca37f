use chatcore::links::annotate_url;
use chatcore::links::augment_prompt;
use chatcore::links::clean_text;
use chatcore::links::condense_fragments;
use chatcore::links::extract_notes;
use chatcore::links::extract_text;
use chatcore::links::find_urls;
use chatcore::links::replace_all;

#[test]
fn finds_every_url_left_to_right() {
    let urls = find_urls("see http://a.test and http://b.test");
    assert_eq!(urls, vec!["http://a.test", "http://b.test"]);
}

#[test]
fn finds_https_and_mid_word_schemes() {
    assert_eq!(find_urls("go https://x now"), vec!["https://x"]);
    assert_eq!(find_urls("xhttp://a.b"), vec!["http://a.b"]);
}

#[test]
fn scheme_without_body_is_no_url() {
    assert!(find_urls("a bare http:// is nothing").is_empty());
    assert!(find_urls("no links here").is_empty());
}

#[test]
fn url_runs_to_the_next_whitespace() {
    let urls = find_urls("see http://a.test/path?q=1#frag,end here");
    assert_eq!(urls, vec!["http://a.test/path?q=1#frag,end"]);
}

#[test]
fn replace_all_rewrites_every_occurrence() {
    let r = replace_all("one two one", "one", "1");
    assert_eq!(r, "1 two 1");
    let r = replace_all("aaaa", "aa", "b");
    assert_eq!(r, "bb");
    let r = replace_all("nothing", "xyz", "!");
    assert_eq!(r, "nothing");
}

#[test]
fn annotation_follows_the_url() {
    let r = annotate_url("see http://a.test now", "http://a.test", "Hello");
    assert_eq!(r, "see http://a.test (Content: Hello) now");
}

#[test]
fn augments_fetched_urls_and_leaves_failed_ones() {
    let text = "see http://a.test and http://b.test";
    let urls = find_urls(text);
    let notes = vec![Some("A content".to_string()), None];
    let r = augment_prompt(text, &urls, &notes);
    assert_eq!(
        r,
        "see http://a.test (Content: A content) and http://b.test"
    );
}

#[test]
fn augments_both_urls_when_both_fetch() {
    let text = "see http://a.test and http://b.test";
    let urls = find_urls(text);
    let notes = vec![Some("A".to_string()), Some("B".to_string())];
    let r = augment_prompt(text, &urls, &notes);
    assert_eq!(
        r,
        "see http://a.test (Content: A) and http://b.test (Content: B)"
    );
}

#[test]
fn clean_collapses_long_whitespace_runs_only() {
    assert_eq!(clean_text("  a\t\tb  "), "a b");
    assert_eq!(clean_text("a\tb"), "a\tb");
    assert_eq!(clean_text("a  b   c"), "a b c");
    assert_eq!(clean_text("   "), "");
}

#[test]
fn condense_cleans_dedups_and_joins() {
    let fragments = vec![
        "Hello".to_string(),
        "World  World".to_string(),
        "Hello".to_string(),
    ];
    assert_eq!(condense_fragments(&fragments), "Hello World World");
}

#[test]
fn extract_text_reads_the_allowed_tags() {
    let html = "<html><head><title>Hello</title></head>\
                <body><p>World  World</p><p>Hello</p><div>skipped</div></body></html>";
    let r = extract_text(html).unwrap();
    assert_eq!(r, "Hello World World");
}

#[test]
fn extract_text_succeeds_on_every_input() {
    assert_eq!(extract_text("").unwrap(), "");
    // Text outside the tag allowlist contributes nothing.
    assert_eq!(
        extract_text("<html><body><div>only a div</div></body></html>").unwrap(),
        ""
    );
}

#[test]
fn extract_notes_pairs_pages_with_notes() {
    let pages = vec![
        Some("<html><body><h1>Title  here</h1></body></html>".to_string()),
        None,
    ];
    let notes = extract_notes(&pages);
    assert_eq!(notes.len(), 2);
    assert_eq!(notes[0].as_deref(), Some("Title here"));
    assert!(notes[1].is_none());
}
