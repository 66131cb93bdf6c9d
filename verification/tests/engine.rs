use doc_format::engine::{cut, scan};

#[test]
fn cut_without_matches_is_all_tail() {
    let found = cut("some text", &vec![]).unwrap();
    assert!(found.tokens.is_empty());
    assert_eq!(found.tail, "some text");
    let found = cut("", &vec![]).unwrap();
    assert_eq!(found.tail, "");
}

#[test]
fn cut_takes_matches_left_to_right() {
    let spans = vec![vec![Some((0, 2))], vec![Some((2, 3)), None, Some((2, 2))], vec![Some((5, 6))]];
    let found = cut("abcdef", &spans).unwrap();
    assert_eq!(found.tokens.len(), 3);
    assert_eq!((found.tokens[0].gap, found.tokens[0].whole), ("", "ab"));
    assert_eq!(found.tokens[0].groups, vec![Some("ab")]);
    assert_eq!((found.tokens[1].gap, found.tokens[1].whole), ("", "c"));
    assert_eq!(found.tokens[1].groups, vec![Some("c"), None, Some("")]);
    assert_eq!((found.tokens[2].gap, found.tokens[2].whole), ("de", "f"));
    assert_eq!(found.tail, "");
}

#[test]
fn cut_accepts_an_empty_match() {
    let found = cut("ab", &vec![vec![Some((1, 1))]]).unwrap();
    assert_eq!((found.tokens[0].gap, found.tokens[0].whole, found.tail), ("a", "", "b"));
}

#[test]
fn cut_refuses_what_the_text_does_not_hold() {
    assert!(cut("abc", &vec![vec![Some((1, 4))]]).is_none());
    assert!(cut("abc", &vec![vec![Some((4, 5))]]).is_none());
    assert!(cut("abc", &vec![vec![Some((2, 1))]]).is_none());
    assert!(cut("abc", &vec![vec![]]).is_none());
    assert!(cut("abc", &vec![vec![None]]).is_none());
    assert!(cut("abc", &vec![vec![None, Some((0, 1))]]).is_none());
}

#[test]
fn cut_refuses_matches_out_of_order() {
    assert!(cut("abcdef", &vec![vec![Some((2, 4))], vec![Some((3, 5))]]).is_none());
    assert!(cut("abcdef", &vec![vec![Some((2, 4))], vec![Some((0, 1))]]).is_none());
    assert!(cut("abcdef", &vec![vec![Some((2, 4))], vec![Some((4, 5))]]).is_some());
}

#[test]
fn cut_refuses_a_span_inside_a_character() {
    let text = "aéb";
    assert!(cut(text, &vec![vec![Some((1, 3))]]).is_some());
    assert!(cut(text, &vec![vec![Some((1, 2))]]).is_none());
    assert!(cut(text, &vec![vec![Some((2, 3))]]).is_none());
    assert!(cut(text, &vec![vec![Some((0, 4)), Some((2, 4))]]).is_none());
    assert!(cut(text, &vec![vec![Some((0, 4)), Some((1, 3))]]).is_some());
}

#[test]
fn cut_refuses_a_group_outside_its_match() {
    assert!(cut("abcdef", &vec![vec![Some((2, 4)), Some((1, 3))]]).is_none());
    assert!(cut("abcdef", &vec![vec![Some((2, 4)), Some((3, 5))]]).is_none());
    assert!(cut("abcdef", &vec![vec![Some((2, 4)), Some((4, 3))]]).is_none());
    assert!(cut("abcdef", &vec![vec![Some((2, 4)), Some((2, 4)), Some((4, 4))]]).is_some());
}

#[test]
fn scan_finds_every_match_with_its_groups() {
    let found = scan(r"(\d+)-(x)?", "a 12- b 3-x").unwrap();
    assert_eq!(found.tokens.len(), 2);
    assert_eq!(found.tokens[0].gap, "a ");
    assert_eq!(found.tokens[0].whole, "12-");
    assert_eq!(found.tokens[0].groups, vec![Some("12-"), Some("12"), None]);
    assert_eq!(found.tokens[1].gap, " b ");
    assert_eq!(found.tokens[1].whole, "3-x");
    assert_eq!(found.tokens[1].groups, vec![Some("3-x"), Some("3"), Some("x")]);
    assert_eq!(found.tail, "");
}

#[test]
fn scan_keeps_the_context_of_a_match() {
    let found = scan(r"\bab", "ab abab cab ab").unwrap();
    let gaps: Vec<&str> = found.tokens.iter().map(|t| t.gap).collect();
    assert_eq!(gaps, vec!["", " ", "ab cab "]);
    assert_eq!(found.tail, "");
}

#[test]
fn scan_without_a_match_is_all_tail() {
    let found = scan("x+", "no such letter").unwrap();
    assert!(found.tokens.is_empty());
    assert_eq!(found.tail, "no such letter");
}

#[test]
fn scan_of_a_pattern_that_the_engine_rejects_is_none() {
    assert!(scan("(unclosed", "text").is_none());
    assert!(scan(r"\w{1000}", "text").is_none());
}

#[test]
fn scan_counts_bytes_not_characters() {
    let found = scan("b+", "ééébbé").unwrap();
    assert_eq!(found.tokens.len(), 1);
    assert_eq!(found.tokens[0].gap, "ééé");
    assert_eq!(found.tokens[0].whole, "bb");
    assert_eq!(found.tail, "é");
}
