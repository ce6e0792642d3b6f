use celeste::paths::{join, relative_to};
use celeste::text::{chars_of, has_prefix, join_lines, split_lines};

#[test]
fn relative_part_follows_the_root_and_a_slash() {
    assert_eq!(relative_to("/home/u/docs", "/home/u/docs/a.txt"), Some("a.txt".to_string()));
    assert_eq!(relative_to("/home/u/docs", "/home/u/docs/sub/a.txt"), Some("sub/a.txt".to_string()));
    assert_eq!(relative_to("backup/docs", "backup/docs/sub"), Some("sub".to_string()));
}

#[test]
fn relative_part_drops_one_trailing_slash() {
    assert_eq!(relative_to("/a", "/a/x/"), Some("x".to_string()));
    assert_eq!(relative_to("/a", "/a/x//"), Some("x/".to_string()));
    assert_eq!(relative_to("", "x/"), Some("x".to_string()));
}

#[test]
fn relative_part_under_an_empty_root_is_the_path() {
    assert_eq!(relative_to("", "x"), Some("x".to_string()));
    assert_eq!(relative_to("", "sub/x"), Some("sub/x".to_string()));
    assert_eq!(relative_to("", ""), Some(String::new()));
}

#[test]
fn path_outside_the_root_has_no_relative_part() {
    assert_eq!(relative_to("/a", "/b/x"), None);
    assert_eq!(relative_to("/a", "/a"), None);
    assert_eq!(relative_to("/a", "/ab/x"), None);
    assert_eq!(relative_to("/a/b", "/a"), None);
    assert_eq!(relative_to("docs", ""), None);
}

#[test]
fn root_itself_with_a_slash_has_an_empty_relative_part() {
    assert_eq!(relative_to("/a", "/a/"), Some(String::new()));
}

#[test]
fn relative_part_counts_characters_not_bytes() {
    assert_eq!(relative_to("/höme", "/höme/ünï/ç"), Some("ünï/ç".to_string()));
}

#[test]
fn join_puts_a_slash_between_root_and_relative_part() {
    assert_eq!(join("/home/u/docs", "a.txt"), "/home/u/docs/a.txt");
    assert_eq!(join("backup", "sub/a"), "backup/sub/a");
}

#[test]
fn join_under_an_empty_root_is_the_relative_part() {
    assert_eq!(join("", "a.txt"), "a.txt");
}

#[test]
fn join_and_relative_part_undo_each_other() {
    for (root, relative) in [("/a/b", "x"), ("", "x/y"), ("r", "x/y/z"), ("/", "x")] {
        let whole = join(root, relative);
        assert_eq!(relative_to(root, &whole), Some(relative.to_string()));
        assert_eq!(join(root, &relative_to(root, &whole).unwrap()), whole);
    }
}

#[test]
fn chars_of_lists_the_characters() {
    assert_eq!(chars_of("añ/"), vec!['a', 'ñ', '/']);
    assert_eq!(chars_of(""), Vec::<char>::new());
}

#[test]
fn has_prefix_compares_from_the_start() {
    assert!(has_prefix(&chars_of("abc"), &chars_of("ab")));
    assert!(has_prefix(&chars_of("abc"), &chars_of("")));
    assert!(has_prefix(&chars_of("abc"), &chars_of("abc")));
    assert!(!has_prefix(&chars_of("abc"), &chars_of("abcd")));
    assert!(!has_prefix(&chars_of("abc"), &chars_of("b")));
}

#[test]
fn split_lines_ends_lines_at_line_feeds() {
    assert_eq!(split_lines("a\nb\nc"), vec!["a", "b", "c"]);
    assert_eq!(split_lines("a\nb\n"), vec!["a", "b"]);
    assert_eq!(split_lines("a"), vec!["a"]);
}

#[test]
fn split_lines_of_an_empty_text_is_empty() {
    assert_eq!(split_lines(""), Vec::<String>::new());
}

#[test]
fn split_lines_keeps_empty_lines() {
    assert_eq!(split_lines("\n"), vec![""]);
    assert_eq!(split_lines("a\n\nb"), vec!["a", "", "b"]);
    assert_eq!(split_lines("\n\n"), vec!["", ""]);
}

#[test]
fn split_lines_drops_a_carriage_return_before_a_line_feed() {
    assert_eq!(split_lines("a\r\nb\r\n"), vec!["a", "b"]);
    assert_eq!(split_lines("a\r\r\nb"), vec!["a\r", "b"]);
    assert_eq!(split_lines("a\rb\n"), vec!["a\rb"]);
}

#[test]
fn split_lines_keeps_a_carriage_return_at_the_end_of_the_text() {
    assert_eq!(split_lines("a\nb\r"), vec!["a", "b\r"]);
}

#[test]
fn split_lines_agrees_with_the_standard_library() {
    for text in ["", "a", "a\n", "\n", "a\r\nb", "a\n\n", "x\ry\r\n\r\nz\r", "ü\nñ\n"] {
        let expected: Vec<String> = text.lines().map(|l| l.to_string()).collect();
        assert_eq!(split_lines(text), expected, "text {:?}", text);
    }
}

#[test]
fn join_lines_puts_line_feeds_between_lines() {
    let lines = vec!["a".to_string(), "b".to_string(), "c".to_string()];
    assert_eq!(join_lines(&lines), "a\nb\nc");
    assert_eq!(join_lines(&vec!["a".to_string()]), "a");
    assert_eq!(join_lines(&Vec::new()), "");
    assert_eq!(join_lines(&vec![String::new(), String::new()]), "\n");
}

#[test]
fn plain_lines_are_read_back_as_they_were_written() {
    let lines = vec!["a b".to_string(), "ü".to_string(), "x\ry".to_string()];
    assert_eq!(split_lines(&join_lines(&lines)), lines);
}
