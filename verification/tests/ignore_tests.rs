use celeste::ignore::IgnoreSet;

fn rules_of(set: &IgnoreSet) -> Vec<String> {
    let mut out = Vec::new();
    let mut i = 0;
    while let Some(rule) = set.rule(i) {
        out.push(rule);
        i += 1;
    }
    out
}

#[test]
fn empty_set_matches_nothing() {
    let set = IgnoreSet::empty();
    assert_eq!(set.len(), 0);
    assert!(!set.matches("a.txt"));
    assert!(!set.matches(""));
    assert_eq!(set.rule(0), None);
}

#[test]
fn parse_reads_one_pattern_per_line() {
    let set = IgnoreSet::parse("*.tmp\nbuild/*\n.git");
    assert_eq!(rules_of(&set), vec!["*.tmp", "build/*", ".git"]);
    assert_eq!(set.len(), 3);
}

#[test]
fn parse_skips_patterns_that_do_not_compile() {
    let set = IgnoreSet::parse("*.tmp\n[\na**b\n***\nkeep");
    assert_eq!(rules_of(&set), vec!["*.tmp", "keep"]);
}

#[test]
fn parse_of_an_empty_file_has_no_rules() {
    assert_eq!(IgnoreSet::parse("").len(), 0);
}

#[test]
fn parse_drops_carriage_returns_of_line_ends() {
    let set = IgnoreSet::parse("*.tmp\r\n*.bak\r\n");
    assert_eq!(rules_of(&set), vec!["*.tmp", "*.bak"]);
    assert!(set.matches("x.bak"));
}

#[test]
fn parse_keeps_an_empty_line_as_the_empty_pattern() {
    let set = IgnoreSet::parse("a\n\nb");
    assert_eq!(rules_of(&set), vec!["a", "", "b"]);
    assert!(set.matches(""));
    assert!(!set.matches("c"));
}

#[test]
fn matches_when_any_rule_matches() {
    let set = IgnoreSet::parse("*.tmp\nbuild/*\nnotes.txt");
    assert!(set.matches("a.tmp"));
    assert!(set.matches("build/out.o"));
    assert!(set.matches("notes.txt"));
    assert!(!set.matches("a.txt"));
    assert!(!set.matches("src/notes.txt.bak"));
}

#[test]
fn star_crosses_directories_by_default() {
    let set = IgnoreSet::parse("*.tmp");
    assert!(set.matches("deep/down/a.tmp"));
}

#[test]
fn question_mark_and_brackets_match_one_character() {
    let set = IgnoreSet::parse("c?t\nk[!e]tteh");
    assert!(set.matches("cat"));
    assert!(!set.matches("caat"));
    assert!(set.matches("kitteh"));
    assert!(!set.matches("ketteh"));
}

#[test]
fn matching_is_case_sensitive() {
    let set = IgnoreSet::parse("README");
    assert!(set.matches("README"));
    assert!(!set.matches("readme"));
}

#[test]
fn pattern_is_not_its_own_match() {
    let set = IgnoreSet::parse("*.tmp");
    assert!(!set.matches("*"));
    assert!(!set.matches("tmp"));
}

#[test]
fn rule_beyond_the_end_is_absent() {
    let set = IgnoreSet::parse("a\nb");
    assert_eq!(set.rule(1), Some("b".to_string()));
    assert_eq!(set.rule(2), None);
    assert_eq!(set.rule(usize::MAX), None);
}

#[test]
fn rule_is_valid_when_it_compiles() {
    assert!(IgnoreSet::is_valid_rule("*.tmp"));
    assert!(IgnoreSet::is_valid_rule("a/**/b"));
    assert!(IgnoreSet::is_valid_rule("[abc]"));
    assert!(IgnoreSet::is_valid_rule(""));
    assert!(!IgnoreSet::is_valid_rule("["));
    assert!(!IgnoreSet::is_valid_rule("a**"));
    assert!(!IgnoreSet::is_valid_rule("***"));
}

#[test]
fn to_text_writes_one_rule_per_line() {
    assert_eq!(IgnoreSet::parse("*.tmp\nbuild/*\n").to_text(), "*.tmp\nbuild/*");
    assert_eq!(IgnoreSet::parse("only").to_text(), "only");
    assert_eq!(IgnoreSet::empty().to_text(), "");
    assert_eq!(IgnoreSet::parse("a\n[\nb").to_text(), "a\nb");
}

#[test]
fn rules_are_read_back_as_they_were_written() {
    let set = IgnoreSet::parse("*.tmp\r\nbuild/*\n.git");
    let again = IgnoreSet::parse(&set.to_text());
    assert_eq!(rules_of(&again), rules_of(&set));
    assert_eq!(rules_of(&again), vec!["*.tmp", "build/*", ".git"]);
}
