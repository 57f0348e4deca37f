use chatcore::chunker::split_message;

#[test]
fn empty_input_yields_no_pieces() {
    let r = split_message("", 10);
    assert!(r.is_empty());
}

#[test]
fn input_within_limit_yields_one_piece() {
    let r = split_message("hello world", 11);
    assert_eq!(r, vec!["hello world"]);
    let r = split_message("hi", 2000);
    assert_eq!(r, vec!["hi"]);
}

#[test]
fn splits_at_last_word_boundary() {
    let r = split_message("hello world foo", 11);
    assert_eq!(r, vec!["hello", "world foo"]);
}

#[test]
fn every_piece_fits_under_the_limit() {
    let text = "The quick brown fox jumps over the lazy dog and keeps on running far away";
    for limit in 1..=20 {
        let pieces = split_message(text, limit);
        for p in &pieces {
            assert!(p.chars().count() <= limit);
        }
        let rejoined: Vec<String> = pieces.clone();
        // Splitting loses only whitespace: the non-space characters survive
        // in order.
        let kept: String = rejoined.concat().chars().filter(|c| !c.is_whitespace()).collect();
        let orig: String = text.chars().filter(|c| !c.is_whitespace()).collect();
        assert_eq!(kept, orig);
    }
}

#[test]
fn hard_cut_when_no_whitespace_in_range() {
    let r = split_message("abcdefgh", 3);
    assert_eq!(r, vec!["abc", "def", "gh"]);
}

#[test]
fn limit_one_cuts_single_characters() {
    let r = split_message("ab", 1);
    assert_eq!(r, vec!["a", "b"]);
}

#[test]
fn whitespace_around_split_point_is_dropped() {
    let r = split_message("ab        cd", 5);
    assert_eq!(r, vec!["ab", "cd"]);
}

#[test]
fn all_whitespace_input_collapses_to_one_empty_piece() {
    let r = split_message("     ", 2);
    assert_eq!(r, vec![""]);
}
