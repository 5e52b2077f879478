//! The ignore filter: the lines of a `.dockignore` file, read with gitignore
//! semantics by the `ignore` crate.

use crate::text::{chars_of, lemma_split_on, slice_of, split, split_on, string_of, views};
use ignore::gitignore::{Gitignore, GitignoreBuilder};
use vstd::prelude::*;

verus! {

/// `ignore::gitignore::Gitignore`, a matcher that was built.
#[verifier::external_type_specification]
#[verifier::external_body]
pub struct ExIgnoreMatcher(ignore::gitignore::Gitignore);

/// `ignore::gitignore::GitignoreBuilder`, a matcher in the making.
#[verifier::external_type_specification]
#[verifier::external_body]
pub struct ExIgnoreBuilder(ignore::gitignore::GitignoreBuilder);

/// `ignore::Error`, carried through as it comes.
#[verifier::external_type_specification]
#[verifier::external_body]
pub struct ExIgnoreError(ignore::Error);

/// The ignore filter of a repository: a matcher that this module built, with
/// the root `.` and telling upper from lower case. No other matcher can
/// stand in it, so what it says of a path depends on its rules and the path
/// alone.
#[derive(Debug)]
pub struct IgnoreFilter {
    matcher: Gitignore,
}

impl View for IgnoreFilter {
    type V = Seq<Seq<char>>;

    /// The rules of the filter, in order: each as it was written.
    closed spec fn view(&self) -> Seq<Seq<char>> {
        matcher_rules(self.matcher)
    }
}

/// The rule that a builder keeps for a line that it is handed: the line as
/// the builder stores it, without the white space at its end unless that is
/// escaped, or `None` where it keeps nothing, as for an empty line, a
/// comment, or a line that is no valid glob.
pub uninterp spec fn kept_rule(line: Seq<char>) -> Option<Seq<char>>;

/// The rules that a builder holds, in order: each as it was written.
pub uninterp spec fn builder_rules(builder: GitignoreBuilder) -> Seq<Seq<char>>;

/// The rules that a matcher holds, in order: each as it was written.
pub uninterp spec fn matcher_rules(matcher: Gitignore) -> Seq<Seq<char>>;

/// Whether a matcher can be built from `rules`.
pub uninterp spec fn ignore_builds(rules: Seq<Seq<char>>) -> bool;

/// Whether a filter with the rules `rules` says of the file at `path`,
/// relative to the directory of the ignore file and in posix form, that it
/// is ignored.
pub uninterp spec fn ignore_verdict(rules: Seq<Seq<char>>, path: Seq<char>) -> bool;

/// Calls `GitignoreBuilder::new` with the root `.`: a builder that holds no
/// rule yet.
#[verifier::external_body]
fn new_builder() -> (builder: GitignoreBuilder)
    ensures
        builder_rules(builder) == Seq::<Seq<char>>::empty(),
{
    GitignoreBuilder::new(".")
}

/// Calls `GitignoreBuilder::add_line` with no source path, on a builder as
/// `new_builder` makes it. The builder then holds one more rule, the one
/// that it keeps for the line, or is as it was where it keeps none. A line
/// that is no valid glob is reported by `add_line`; the report is dropped
/// here.
#[verifier::external_body]
fn add_line(builder: &mut GitignoreBuilder, line: &str)
    ensures
        builder_rules(*final(builder)) == match kept_rule(line@) {
            Some(rule) => builder_rules(*old(builder)).push(rule),
            None => builder_rules(*old(builder)),
        },
{
    let _ = builder.add_line(None, line);
}

/// Calls `GitignoreBuilder::build`, on a builder as `new_builder` makes it,
/// and puts the matcher into a filter: a matcher that holds the rules of
/// the builder, or the error of its glob set. Whether the set can be built
/// depends on the rules alone. A builder without a rule holds no glob, and
/// `GlobSet::new` gives the empty set for no glob without building
/// anything, so that build does not fail.
#[verifier::external_body]
fn build_matcher(builder: &GitignoreBuilder) -> (r: Result<IgnoreFilter, ignore::Error>)
    ensures
        r is Ok <==> ignore_builds(builder_rules(*builder)),
        r matches Ok(filter) ==> matcher_rules(filter.matcher) == builder_rules(*builder),
        builder_rules(*builder).len() == 0 ==> r is Ok,
{
    match builder.build() {
        Ok(matcher) => Ok(IgnoreFilter { matcher }),
        Err(error) => Err(error),
    }
}

/// Calls `Gitignore::matched` on the matcher of a filter, for a path that is
/// no directory, and `Match::is_ignore` on what it returns: whether the last
/// rule that matches the path is an ignore rule. Every filter holds a
/// matcher with the root `.`, from which `matched` strips nothing but a
/// leading `./`, and with globs that tell upper from lower case, so the
/// answer depends on the rules and the path. The path is to be in posix
/// form: where the separator of the operating system is not the slash,
/// `globset` reads that separator in a path as a slash.
#[verifier::external_body]
fn matched(filter: &IgnoreFilter, path: &str) -> (r: bool)
    ensures
        r == ignore_verdict(matcher_rules(filter.matcher), path@),
{
    filter.matcher.matched(path, false).is_ignore()
}

/// `s` without the carriage return at its end, if it has one.
pub open spec fn without_cr(s: Seq<char>) -> Seq<char> {
    if s.len() > 0 && s.last() == '\r' {
        s.drop_last()
    } else {
        s
    }
}

/// `s` without the byte order marks at its start.
pub open spec fn without_bom(s: Seq<char>) -> Seq<char>
    decreases s.len(),
{
    if s.len() > 0 && s[0] == '\u{feff}' {
        without_bom(s.drop_first())
    } else {
        s
    }
}

/// The lines of a text: the pieces between line feeds, each without the
/// carriage return before its line feed. What follows the last line feed is a
/// line only if it is not empty.
pub open spec fn lines_of(text: Seq<char>) -> Seq<Seq<char>> {
    let pieces = split_on(text, '\n');
    let ended = pieces.drop_last().map_values(|piece: Seq<char>| without_cr(piece));
    if pieces.last().len() == 0 {
        ended
    } else {
        ended.push(pieces.last())
    }
}

/// The lines of an ignore file as the builder gets them: the first of them
/// without byte order marks.
pub open spec fn handed_lines(lines: Seq<Seq<char>>) -> Seq<Seq<char>> {
    if lines.len() == 0 {
        lines
    } else {
        lines.update(0, without_bom(lines[0]))
    }
}

/// The lines of the ignore file with the contents `text` as the builder
/// gets them.
pub open spec fn dockignore_lines(text: Seq<char>) -> Seq<Seq<char>> {
    handed_lines(lines_of(text))
}

/// The rules that a builder keeps of the lines that it is handed, in order.
pub open spec fn kept_rules(lines: Seq<Seq<char>>) -> Seq<Seq<char>>
    decreases lines.len(),
{
    if lines.len() == 0 {
        Seq::empty()
    } else {
        let before = kept_rules(lines.drop_last());
        match kept_rule(lines.last()) {
            Some(rule) => before.push(rule),
            None => before,
        }
    }
}

/// The rules of the ignore file with the contents `text`.
pub open spec fn dockignore_rules(text: Seq<char>) -> Seq<Seq<char>> {
    kept_rules(dockignore_lines(text))
}

/// What the filter says of `path`: ignored if there is a filter and it says
/// so. Without an ignore file nothing is ignored.
pub open spec fn ignored(matcher: Option<IgnoreFilter>, path: Seq<char>) -> bool {
    match matcher {
        Some(m) => ignore_verdict(m@, path),
        None => false,
    }
}

proof fn lemma_without_bom_skips(s: Seq<char>, n: int)
    requires
        0 <= n <= s.len(),
        forall|k: int| 0 <= k < n ==> s[k] == '\u{feff}',
    ensures
        without_bom(s) == without_bom(s.skip(n)),
    decreases n,
{
    if n > 0 {
        assert(s.drop_first().skip(n - 1) == s.skip(n));
        lemma_without_bom_skips(s.drop_first(), n - 1);
    } else {
        assert(s.skip(0) == s);
    }
}

/// `piece` without the carriage return at its end, if it has one.
pub fn strip_cr(piece: &str) -> (line: String)
    ensures
        line@ == without_cr(piece@),
{
    let chars = chars_of(piece);
    let mut to: usize = chars.len();
    if to > 0 && chars[to - 1] == '\r' {
        to -= 1;
    }
    let part = slice_of(&chars, 0, to);
    assert(part@ == without_cr(piece@));
    string_of(&part)
}

/// `line` without the byte order marks at its start.
pub fn strip_bom(line: &str) -> (rest: String)
    ensures
        rest@ == without_bom(line@),
{
    let chars = chars_of(line);
    let mut from: usize = 0;
    while from < chars.len() && chars[from] == '\u{feff}'
        invariant
            from <= chars.len(),
            forall|k: int| 0 <= k < from ==> chars@[k] == '\u{feff}',
        decreases chars.len() - from,
    {
        from += 1;
    }
    let part = slice_of(&chars, from, chars.len());
    proof {
        lemma_without_bom_skips(chars@, from as int);
        assert(chars@.skip(from as int) == part@);
    }
    string_of(&part)
}

/// The lines of a text.
pub fn text_lines(text: &str) -> (lines: Vec<String>)
    ensures
        views(lines@) == lines_of(text@),
{
    let pieces = split(text, '\n');
    proof {
        lemma_split_on(text@, '\n');
    }
    let ghost all = split_on(text@, '\n');
    let ghost ended = all.drop_last().map_values(|piece: Seq<char>| without_cr(piece));
    let mut lines: Vec<String> = Vec::new();
    let last: usize = pieces.len() - 1;
    let mut i: usize = 0;
    assert(ended.take(0) =~= views(lines@));
    while i < last
        invariant
            i <= last,
            last == pieces.len() - 1,
            views(pieces@) == all,
            ended == all.drop_last().map_values(|piece: Seq<char>| without_cr(piece)),
            views(lines@) == ended.take(i as int),
        decreases last - i,
    {
        let ghost before = lines@;
        let line = strip_cr(pieces[i].as_str());
        lines.push(line);
        proof {
            assert(views(pieces@)[i as int] == pieces@[i as int]@);
            assert(ended[i as int] == line@);
            assert(views(lines@) =~= views(before).push(line@));
            assert(ended.take(i + 1) == ended.take(i as int).push(line@));
        }
        i += 1;
    }
    assert(ended.take(last as int) == ended);
    assert(views(pieces@)[last as int] == pieces@[last as int]@);
    if pieces[last].as_str().unicode_len() > 0 {
        let ghost before = lines@;
        let line = pieces[last].clone();
        lines.push(line);
        assert(views(lines@) =~= views(before).push(line@));
    }
    lines
}

/// The builder that was handed `lines`, the lines of an ignore file, in
/// order, the first of them without byte order marks: it holds the rules
/// that it kept of them.
pub fn builder_of_lines(lines: &Vec<String>) -> (builder: GitignoreBuilder)
    ensures
        builder_rules(builder) == kept_rules(handed_lines(views(lines@))),
{
    let mut builder = new_builder();
    let ghost want = handed_lines(views(lines@));
    let mut i: usize = 0;
    assert(want.take(0) =~= Seq::<Seq<char>>::empty());
    while i < lines.len()
        invariant
            i <= lines.len(),
            want == handed_lines(views(lines@)),
            want.len() == lines.len(),
            builder_rules(builder) == kept_rules(want.take(i as int)),
        decreases lines.len() - i,
    {
        proof {
            assert(views(lines@)[i as int] == lines@[i as int]@);
            let now = want.take(i + 1);
            assert(now.drop_last() == want.take(i as int));
        }
        if i == 0 {
            let line = strip_bom(lines[i].as_str());
            add_line(&mut builder, line.as_str());
            assert(want.take(i + 1).last() == line@);
        } else {
            add_line(&mut builder, lines[i].as_str());
            assert(want.take(i + 1).last() == lines@[i as int]@);
        }
        i += 1;
    }
    assert(want.take(i as int) == want);
    builder
}

/// The builder for the ignore file with the contents `text`: it holds the
/// rules of the file.
pub fn dockignore_builder(text: &str) -> (builder: GitignoreBuilder)
    ensures
        builder_rules(builder) == dockignore_rules(text@),
{
    let lines = text_lines(text);
    builder_of_lines(&lines)
}

/// The filter that a build gave, where it gave one.
pub fn built_matcher(built: Result<IgnoreFilter, ignore::Error>) -> (matcher: Option<IgnoreFilter>)
    ensures
        matcher == match built {
            Ok(m) => Some(m),
            Err(_) => None,
        },
{
    match built {
        Ok(m) => Some(m),
        Err(_) => None,
    }
}

/// The matcher for an ignore file that was read line by line. There is one
/// exactly if a matcher can be built from the rules that the builder keeps
/// of the lines; it then holds these rules. Lines without a rule always
/// give a matcher.
pub fn matcher_of_lines(lines: &Vec<String>) -> (matcher: Option<IgnoreFilter>)
    ensures
        matcher is Some <==> ignore_builds(kept_rules(handed_lines(views(lines@)))),
        matcher matches Some(m) ==> m@ == kept_rules(handed_lines(views(lines@))),
        kept_rules(handed_lines(views(lines@))).len() == 0 ==> matcher is Some,
{
    let builder = builder_of_lines(lines);
    built_matcher(build_matcher(&builder))
}

/// The matcher for the ignore file with the contents `dockignore`; `None`
/// stands for a repository without such a file. There is a matcher exactly
/// if there is a file and a matcher can be built from its rules; it then
/// holds these rules. A file without a rule always gives a matcher.
pub fn get_dockignore_matcher(dockignore: Option<&str>) -> (matcher: Option<IgnoreFilter>)
    ensures
        matcher is Some <==> dockignore is Some && ignore_builds(dockignore_rules(dockignore->0@)),
        matcher matches Some(m) ==> m@ == dockignore_rules(dockignore->0@),
        dockignore matches Some(text) && dockignore_rules(text@).len() == 0 ==> matcher is Some,
{
    match dockignore {
        Some(text) => {
            let lines = text_lines(text);
            matcher_of_lines(&lines)
        },
        None => None,
    }
}

/// Whether the ignore filter drops `path`, a path relative to the root of
/// the repository, in posix form as `to_posix` gives it for the separator
/// of the operating system.
pub fn is_ignored(path: &str, matcher: &Option<IgnoreFilter>) -> (r: bool)
    ensures
        r == ignored(*matcher, path@),
{
    match matcher {
        Some(m) => matched(m, path),
        None => false,
    }
}

} // verus!
