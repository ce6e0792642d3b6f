//! The exclusion rules of a synchronized pair: glob patterns, one per line
//! of the pair's marker file, matched against paths relative to the pair's
//! roots.

use vstd::prelude::*;
use vstd::string::*;
use crate::text::{lemma_lines_of_joined, plain_line};
use crate::text::{join_lines, joined_lines, lines_of, split_lines, texts};

verus! {

/// Whether `glob::Pattern::new` accepts `pattern`.
///
/// The glob crate gives the target's path separators a meaning of their
/// own, so the answer is that of the target the library is built for.
pub uninterp spec fn glob_compiles(pattern: Seq<char>) -> bool;

/// What `glob::Pattern::matches` answers for `path` on the pattern compiled
/// from `pattern`, under the crate's default match options: letters are
/// told apart by case, `*` and `?` may stand for a separator, and a leading
/// dot needs no dot in the pattern. As with `glob_compiles`, the answer is
/// that of the target the library is built for.
pub uninterp spec fn glob_matches(pattern: Seq<char>, path: Seq<char>) -> bool;

/// Compiles `pattern` with `glob::Pattern::new` and reports whether that
/// succeeded. Compilation reads nothing but the pattern's characters, so the
/// answer is a function of the text.
#[verifier::external_body]
fn pattern_compiles(pattern: &str) -> (ok: bool)
    ensures
        ok == glob_compiles(pattern@),
{
    glob::Pattern::new(pattern).is_ok()
}

/// Compiles `pattern` with `glob::Pattern::new` and asks
/// `glob::Pattern::matches` whether it matches `path`; a pattern that does
/// not compile matches nothing. The match walks the compiled pattern and the
/// path's characters only, so the answer is a function of the two texts.
#[verifier::external_body]
fn pattern_matches(pattern: &str, path: &str) -> (hit: bool)
    ensures
        hit == (glob_compiles(pattern@) && glob_matches(pattern@, path@)),
{
    match glob::Pattern::new(pattern) {
        Ok(compiled) => compiled.matches(path),
        Err(_) => false,
    }
}

/// The test that a line compiles as a glob pattern.
pub open spec fn compiles() -> spec_fn(Seq<char>) -> bool {
    |line: Seq<char>| glob_compiles(line)
}

/// The lines among `lines` that compile as glob patterns, in order.
pub open spec fn compiling_lines(lines: Seq<Seq<char>>) -> Seq<Seq<char>> {
    lines.filter(compiles())
}

/// Whether some rule of `rules` matches `path`.
pub open spec fn any_rule_matches(rules: Seq<Seq<char>>, path: Seq<char>) -> bool {
    exists|i: int| 0 <= i < rules.len() && glob_matches(#[trigger] rules[i], path)
}

/// Rules that were written to a marker file are read back as they were,
/// provided each is a plain line that compiles.
pub proof fn lemma_rules_read_back(rules: Seq<Seq<char>>)
    requires
        forall|i: int| 0 <= i < rules.len() ==> plain_line(#[trigger] rules[i]),
        forall|i: int| 0 <= i < rules.len() ==> glob_compiles(#[trigger] rules[i]),
    ensures
        compiling_lines(lines_of(joined_lines(rules))) == rules,
{
    lemma_lines_of_joined(rules);
    lemma_filter_kept(rules);
}

proof fn lemma_filter_kept(rules: Seq<Seq<char>>)
    requires
        forall|i: int| 0 <= i < rules.len() ==> glob_compiles(#[trigger] rules[i]),
    ensures
        rules.filter(compiles()) == rules,
    decreases rules.len(),
{
    reveal(Seq::filter);
    if rules.len() > 0 {
        lemma_filter_kept(rules.drop_last());
        assert(rules.drop_last().push(rules.last()) =~= rules);
    }
}

/// A set of exclusion rules. Every rule it holds compiles as a glob pattern.
pub struct IgnoreSet {
    rules: Vec<String>,
}

impl View for IgnoreSet {
    type V = Seq<Seq<char>>;

    /// The texts of the rules, in file order.
    closed spec fn view(&self) -> Seq<Seq<char>> {
        texts(self.rules@)
    }
}

impl IgnoreSet {
    #[verifier::type_invariant]
    spec fn all_compile(&self) -> bool {
        forall|i: int| 0 <= i < self.rules@.len() ==> glob_compiles(#[trigger] self.rules@[i]@)
    }

    /// The set without rules, which excludes nothing.
    pub fn empty() -> (set: Self)
        ensures
            set@ == Seq::<Seq<char>>::empty(),
    {
        let set = IgnoreSet { rules: Vec::new() };
        assert(set@ =~= Seq::<Seq<char>>::empty());
        set
    }

    /// Reads the rules from the text of a marker file: one pattern per line,
    /// lines that do not compile are left out.
    pub fn parse(content: &str) -> (set: Self)
        ensures
            set@ == compiling_lines(lines_of(content@)),
    {
        let lines = split_lines(content);
        let ghost all = lines_of(content@);
        let ghost keep = compiles();
        let mut rules: Vec<String> = Vec::new();
        let mut i: usize = 0;
        proof {
            reveal(Seq::filter);
            assert(all.take(0) =~= Seq::<Seq<char>>::empty());
            assert(texts(rules@) =~= Seq::<Seq<char>>::empty());
        }
        while i < lines.len()
            invariant
                i <= lines.len(),
                texts(lines@) == all,
                keep == compiles(),
                texts(rules@) == all.take(i as int).filter(keep),
                forall|j: int| 0 <= j < rules@.len() ==> glob_compiles(#[trigger] rules@[j]@),
            decreases lines.len() - i,
        {
            let ghost before = texts(rules@);
            let ok = pattern_compiles(lines[i].as_str());
            proof {
                reveal(Seq::filter);
                assert(all[i as int] == lines@[i as int]@);
                assert(all.take(i + 1).drop_last() =~= all.take(i as int));
                assert(all.take(i + 1).last() == all[i as int]);
            }
            if ok {
                let line = lines[i].clone();
                rules.push(line);
                assert(texts(rules@) =~= before.push(all[i as int]));
            }
            i += 1;
        }
        assert(all.take(i as int) =~= all);
        IgnoreSet { rules }
    }

    /// Whether a text compiles as a rule.
    pub fn is_valid_rule(text: &str) -> (valid: bool)
        ensures
            valid == glob_compiles(text@),
    {
        pattern_compiles(text)
    }

    /// The text of a marker file that holds the rules of the set, one per
    /// line.
    pub fn to_text(&self) -> (content: String)
        ensures
            content@ == joined_lines(self@),
    {
        join_lines(&self.rules)
    }

    /// The number of rules.
    pub fn len(&self) -> (n: usize)
        ensures
            n == self@.len(),
    {
        self.rules.len()
    }

    /// The text of the rule at `index`.
    pub fn rule(&self, index: usize) -> (text: Option<String>)
        ensures
            text is Some == (index < self@.len()),
            text is Some ==> text->0@ == self@[index as int],
    {
        if index < self.rules.len() {
            Some(self.rules[index].clone())
        } else {
            None
        }
    }

    /// Whether `relative` is excluded: some rule matches it.
    pub fn matches(&self, relative: &str) -> (hit: bool)
        ensures
            hit == any_rule_matches(self@, relative@),
    {
        proof {
            use_type_invariant(self);
        }
        let mut i: usize = 0;
        while i < self.rules.len()
            invariant
                i <= self.rules@.len(),
                forall|j: int| 0 <= j < self.rules@.len() ==> glob_compiles(#[trigger] self.rules@[j]@),
                forall|j: int| 0 <= j < i ==> !glob_matches(#[trigger] self@[j], relative@),
            decreases self.rules.len() - i,
        {
            assert(self@[i as int] == self.rules@[i as int]@);
            if pattern_matches(self.rules[i].as_str(), relative) {
                return true;
            }
            i += 1;
        }
        false
    }
}

} // verus!
