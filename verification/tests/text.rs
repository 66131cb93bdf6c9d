use doc_format::text::{
    chars_of, collapse_spaces, cut_piece, find_chars, split_at_boundary, str_eq, trim_final_break,
    trim_start_matches, try_split,
};

#[test]
fn chars_of_lists_the_characters() {
    assert_eq!(chars_of("aé€😀"), vec!['a', 'é', '€', '😀']);
    assert_eq!(chars_of(""), Vec::<char>::new());
}

#[test]
fn str_eq_compares_the_characters() {
    assert!(str_eq("", ""));
    assert!(str_eq("héllo", "héllo"));
    assert!(!str_eq("hello", "hellp"));
    assert!(!str_eq("hello", "hell"));
    assert!(!str_eq("", "x"));
    assert!(!str_eq("é", "e"));
}

#[test]
fn split_at_boundary_cuts_between_characters_only() {
    assert_eq!(split_at_boundary("aéb", 0), Some(("", "aéb")));
    assert_eq!(split_at_boundary("aéb", 1), Some(("a", "éb")));
    assert_eq!(split_at_boundary("aéb", 2), None);
    assert_eq!(split_at_boundary("aéb", 3), Some(("aé", "b")));
    assert_eq!(split_at_boundary("aéb", 4), Some(("aéb", "")));
    assert_eq!(split_at_boundary("aéb", 5), None);
    assert_eq!(split_at_boundary("", 0), Some(("", "")));
    assert_eq!(split_at_boundary("", 1), None);
}

#[test]
fn cut_piece_takes_bytes_from_to() {
    assert_eq!(cut_piece("aéb😀c", 1, 4), Some("éb"));
    assert_eq!(cut_piece("aéb😀c", 4, 8), Some("😀"));
    assert_eq!(cut_piece("aéb😀c", 0, 9), Some("aéb😀c"));
    assert_eq!(cut_piece("aéb😀c", 3, 3), Some(""));
    assert_eq!(cut_piece("aéb😀c", 4, 3), None);
    assert_eq!(cut_piece("aéb😀c", 2, 4), None);
    assert_eq!(cut_piece("aéb😀c", 4, 6), None);
    assert_eq!(cut_piece("aéb😀c", 4, 10), None);
}

#[test]
fn find_chars_gives_the_first_position() {
    let text = chars_of("abcabc");
    assert_eq!(find_chars(&text, &chars_of("bc")), Some(1));
    assert_eq!(find_chars(&text, &chars_of("abc")), Some(0));
    assert_eq!(find_chars(&text, &chars_of("c")), Some(2));
    assert_eq!(find_chars(&text, &chars_of("abcabc")), Some(0));
    assert_eq!(find_chars(&text, &chars_of("cab")), Some(2));
    assert_eq!(find_chars(&text, &chars_of("ca")), Some(2));
    assert_eq!(find_chars(&text, &chars_of("cc")), None);
    assert_eq!(find_chars(&text, &chars_of("abcabca")), None);
    assert_eq!(find_chars(&text, &chars_of("")), Some(0));
    assert_eq!(find_chars(&chars_of(""), &chars_of("")), Some(0));
    assert_eq!(find_chars(&chars_of(""), &chars_of("a")), None);
    assert_eq!(find_chars(&chars_of("aab"), &chars_of("ab")), Some(1));
}

#[test]
fn try_split_splits_at_the_first_occurrence() {
    assert_eq!(try_split("a|[b|[c", "|["), ("a", Some("b|[c")));
    assert_eq!(try_split("|[b", "|["), ("", Some("b")));
    assert_eq!(try_split("a|[", "|["), ("a", Some("")));
    assert_eq!(try_split("a|b[", "|["), ("a|b[", None));
    assert_eq!(try_split("", "|["), ("", None));
    assert_eq!(try_split("é€|[😀é", "|["), ("é€", Some("😀é")));
    assert_eq!(try_split("aéb", "é"), ("a", Some("b")));
    assert_eq!(try_split("abc", ""), ("", Some("abc")));
    assert_eq!(try_split("line\n]| rest", "]|"), ("line\n", Some(" rest")));
}

#[test]
fn trim_start_matches_takes_the_leading_characters_only() {
    assert_eq!(trim_start_matches("..a.b.", '.'), "a.b.");
    assert_eq!(trim_start_matches("a..", '.'), "a..");
    assert_eq!(trim_start_matches("...", '.'), "");
    assert_eq!(trim_start_matches("", '.'), "");
    assert_eq!(trim_start_matches(":.a", '.'), ":.a");
    assert_eq!(trim_start_matches("éé€", 'é'), "€");
}

#[test]
fn collapse_spaces_leaves_one_space_of_each_run() {
    assert_eq!(collapse_spaces("a  b"), "a b");
    assert_eq!(collapse_spaces("a b"), "a b");
    assert_eq!(collapse_spaces("  a     b  "), " a b ");
    assert_eq!(collapse_spaces("     "), " ");
    assert_eq!(collapse_spaces(" "), " ");
    assert_eq!(collapse_spaces(""), "");
    assert_eq!(collapse_spaces("a \t  \n  b"), "a \t \n b");
    assert_eq!(collapse_spaces("é  €   😀"), "é € 😀");
    assert_eq!(collapse_spaces("a\u{a0}\u{a0}b"), "a\u{a0}\u{a0}b");
}

#[test]
fn trim_final_break_takes_one_line_break_from_the_end() {
    assert_eq!(trim_final_break("a\n"), "a");
    assert_eq!(trim_final_break("a\n\n"), "a\n");
    assert_eq!(trim_final_break("\n"), "");
    assert_eq!(trim_final_break("\na"), "\na");
    assert_eq!(trim_final_break("a\r\n"), "a\r");
    assert_eq!(trim_final_break("a\r"), "a\r");
    assert_eq!(trim_final_break("é\n"), "é");
    assert_eq!(trim_final_break(""), "");
}

#[test]
fn collapse_spaces_handles_runs_at_both_ends() {
    assert_eq!(collapse_spaces("  "), " ");
    assert_eq!(collapse_spaces("   a"), " a");
    assert_eq!(collapse_spaces("a   "), "a ");
    assert_eq!(collapse_spaces(" a  b   c    d     "), " a b c d ");
    assert_eq!(collapse_spaces("no runs here"), "no runs here");
}
