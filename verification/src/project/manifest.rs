use vstd::prelude::*;

use crate::text::{decimal, decimal_string, string_is};

verus! {

/// Whether `c` has Unicode's `White_Space` property, as `char::is_whitespace`
/// reports it: the controls from tab to carriage return, the space, the next
/// line control, the no-break spaces, the Ogham space mark, the spaces from en
/// quad to hair space, the line and paragraph separators, the narrow no-break
/// space, the medium mathematical space and the ideographic space.
pub open spec fn white_space(c: char) -> bool {
    let n = c as u32;
    (0x9 <= n <= 0xd) || n == 0x20 || n == 0x85 || n == 0xa0 || n == 0x1680 || (0x2000 <= n <= 0x200a) || n == 0x2028
        || n == 0x2029 || n == 0x202f || n == 0x205f || n == 0x3000
}

/// Whether `c` is white space (see `white_space`).
fn is_whitespace(c: char) -> (space: bool)
    ensures
        space == white_space(c),
{
    let n = c as u32;
    (0x9 <= n && n <= 0xd) || n == 0x20 || n == 0x85 || n == 0xa0 || n == 0x1680 || (0x2000 <= n && n <= 0x200a)
        || n == 0x2028 || n == 0x2029 || n == 0x202f || n == 0x205f || n == 0x3000
}

/// `text` without its leading white space.
pub open spec fn trim_start_seq(text: Seq<char>) -> Seq<char>
    decreases text.len(),
{
    if text.len() > 0 && white_space(text[0]) {
        trim_start_seq(text.drop_first())
    } else {
        text
    }
}

/// `text` without its trailing white space.
pub open spec fn trim_end_seq(text: Seq<char>) -> Seq<char>
    decreases text.len(),
{
    if text.len() > 0 && white_space(text.last()) {
        trim_end_seq(text.drop_last())
    } else {
        text
    }
}

/// `text` without white space at either end, as `str::trim` gives it.
pub open spec fn trim_seq(text: Seq<char>) -> Seq<char> {
    trim_end_seq(trim_start_seq(text))
}

/// The index of the first `c` in `text`, or the length of `text` when there is none.
pub open spec fn index_of_char(text: Seq<char>, c: char) -> int
    decreases text.len(),
{
    if text.len() == 0 {
        0
    } else if text[0] == c {
        0
    } else {
        1 + index_of_char(text.drop_first(), c)
    }
}

/// A YAML scalar without the matching quotes (double or single) around it.
pub open spec fn unquote_seq(value: Seq<char>) -> Seq<char> {
    if value.len() >= 2 && ((value[0] == '"' && value.last() == '"') || (value[0] == '\''
        && value.last() == '\'')) {
        value.subrange(1, value.len() - 1)
    } else {
        value
    }
}

/// `path:line: message`.
pub open spec fn line_error(path: Seq<char>, number: nat, message: Seq<char>) -> Seq<char> {
    path + ":"@ + decimal(number) + ": "@ + message
}

/// What reading a manifest has gathered so far: whether the lines now belong
/// to the `dependencies:` block, the `noStd` setting, and the dependencies
/// (name and unquoted value) in the order they were listed.
pub type ManifestState = (bool, bool, Seq<(Seq<char>, Seq<char>)>);

/// Some dependency already has the name `name`.
pub open spec fn has_dependency(dependencies: Seq<(Seq<char>, Seq<char>)>, name: Seq<char>) -> bool {
    exists|i: int| 0 <= i < dependencies.len() && #[trigger] dependencies[i].0 == name
}

/// One line of a manifest, line `number` of the file at `path`. Blank lines
/// and comments change nothing. A line that starts in the first column ends
/// any dependency block, opens one if it reads `dependencies:`, and sets
/// `noStd` if it starts with `noStd:`. An indented line inside the block is a
/// `name: value` entry; elsewhere it is ignored.
pub open spec fn manifest_step(path: Seq<char>, number: nat, line: Seq<char>, state: ManifestState)
    -> Result<ManifestState, Seq<char>>
{
    let trimmed = trim_seq(line);
    if trimmed.len() == 0 || trimmed[0] == '#' {
        Ok(state)
    } else if !white_space(line[0]) {
        let in_dependencies = trimmed == "dependencies:"@;
        if trimmed.len() >= 6 && trimmed.take(6) == "noStd:"@ {
            let value = unquote_seq(trim_seq(trimmed.skip(6)));
            if value == "true"@ {
                Ok((in_dependencies, true, state.2))
            } else if value == "false"@ {
                Ok((in_dependencies, false, state.2))
            } else {
                Err(line_error(path, number, "expected `noStd` to be `true` or `false`"@))
            }
        } else {
            Ok((in_dependencies, state.1, state.2))
        }
    } else if !state.0 {
        Ok(state)
    } else {
        let colon = index_of_char(trimmed, ':');
        let name = trim_seq(trimmed.take(colon));
        let value = trim_seq(trimmed.skip(colon + 1));
        if colon >= trimmed.len() || name.len() == 0 || value.len() == 0 {
            Err(line_error(path, number, "expected `name: fs:path` dependency entry"@))
        } else if has_dependency(state.2, name) {
            Err(line_error(path, number, "duplicate dependency `"@ + name + "`"@))
        } else {
            Ok((state.0, state.1, state.2.push((name, unquote_seq(value)))))
        }
    }
}

/// Reads the lines of `text` one after another, the first being line
/// `number`; lines end at `\n`, and a final `\n` starts no further line.
pub open spec fn manifest_lines(path: Seq<char>, text: Seq<char>, number: nat, state: ManifestState)
    -> Result<ManifestState, Seq<char>>
    decreases text.len(),
{
    if text.len() == 0 {
        Ok(state)
    } else {
        let end = index_of_char(text, '\n');
        match manifest_step(path, number, text.take(end), state) {
            Err(message) => Err(message),
            Ok(next) => if 0 <= end < text.len() {
                manifest_lines(path, text.skip(end + 1), number + 1, next)
            } else {
                Ok(next)
            },
        }
    }
}

/// No two dependencies share a name.
pub open spec fn names_distinct(dependencies: Seq<(Seq<char>, Seq<char>)>) -> bool {
    forall|i: int, j: int|
        0 <= i < j < dependencies.len() ==> #[trigger] dependencies[i].0 != #[trigger] dependencies[j].0
}

/// A manifest never lists two dependencies under one name: reading more
/// lines keeps the names distinct.
pub proof fn law_manifest_names_distinct(path: Seq<char>, text: Seq<char>, number: nat, state: ManifestState)
    requires
        names_distinct(state.2),
    ensures
        manifest_lines(path, text, number, state) matches Ok(last) ==> names_distinct(last.2),
    decreases text.len(),
{
    if text.len() > 0 {
        let end = index_of_char(text, '\n');
        let line = text.take(end);
        if let Ok(next) = manifest_step(path, number, line, state) {
            assert(names_distinct(next.2)) by {
                let trimmed = trim_seq(line);
                if next.2 != state.2 {
                    let colon = index_of_char(trimmed, ':');
                    let name = trim_seq(trimmed.take(colon));
                    assert(!has_dependency(state.2, name));
                    assert(next.2 == state.2.push((name, unquote_seq(trim_seq(trimmed.skip(colon + 1))))));
                    assert forall|i: int, j: int| 0 <= i < j < next.2.len() implies #[trigger] next.2[i].0
                        != #[trigger] next.2[j].0 by {
                        if j == next.2.len() - 1 {
                            assert(next.2[i] == state.2[i]);
                        }
                    }
                }
            }
            if 0 <= end < text.len() {
                law_manifest_names_distinct(path, text.skip(end + 1), number + 1, next);
            }
        }
    }
}

/// The settings of a project manifest.
#[derive(Debug)]
pub struct ProjectManifest {
    pub dependencies: Vec<(String, String)>,
    pub no_std: bool,
}

pub open spec fn dependency_views(dependencies: Seq<(String, String)>) -> Seq<(Seq<char>, Seq<char>)> {
    dependencies.map_values(|entry: (String, String)| (entry.0@, entry.1@))
}

pub(crate) proof fn lemma_index_of_char_bounds(text: Seq<char>, c: char)
    ensures
        0 <= index_of_char(text, c) <= text.len(),
        index_of_char(text, c) < text.len() ==> text[index_of_char(text, c)] == c,
        forall|i: int| 0 <= i < index_of_char(text, c) ==> text[i] != c,
    decreases text.len(),
{
    if text.len() > 0 && text[0] != c {
        lemma_index_of_char_bounds(text.drop_first(), c);
        assert forall|i: int| 0 <= i < index_of_char(text, c) implies text[i] != c by {
            if i > 0 {
                assert(text[i] == text.drop_first()[i - 1]);
            }
        }
    }
}

proof fn lemma_index_of_char_is_first(text: Seq<char>, c: char, k: int)
    requires
        0 <= k <= text.len(),
        k < text.len() ==> text[k] == c,
        forall|i: int| 0 <= i < k ==> text[i] != c,
    ensures
        index_of_char(text, c) == k,
    decreases text.len(),
{
    if text.len() > 0 && text[0] != c {
        assert forall|i: int| 0 <= i < k - 1 implies text.drop_first()[i] != c by {
            assert(text.drop_first()[i] == text[i + 1]);
        }
        lemma_index_of_char_is_first(text.drop_first(), c, k - 1);
    }
}

/// The characters of `text`.
pub(crate) fn char_vec(text: &str) -> (chars: Vec<char>)
    ensures
        chars@ == text@,
{
    let n = text.unicode_len();
    let mut chars: Vec<char> = Vec::new();
    let mut i: usize = 0;
    while i < n
        invariant
            n == text@.len(),
            i <= n,
            chars@ == text@.take(i as int),
        decreases n - i,
    {
        chars.push(text.get_char(i));
        assert(text@.take(i + 1) =~= text@.take(i as int).push(text@[i as int]));
        i = i + 1;
    }
    assert(text@.take(n as int) =~= text@);
    chars
}

/// The bounds of `chars[from..to]` with white space cut from both ends.
fn trim_range(chars: &Vec<char>, from: usize, to: usize) -> (range: (usize, usize))
    requires
        from <= to <= chars@.len(),
    ensures
        from <= range.0 <= range.1 <= to,
        chars@.subrange(range.0 as int, range.1 as int) == trim_seq(chars@.subrange(from as int, to as int)),
{
    let mut start = from;
    while start < to && is_whitespace(chars[start])
        invariant
            from <= start <= to <= chars@.len(),
            trim_start_seq(chars@.subrange(from as int, to as int)) == trim_start_seq(
                chars@.subrange(start as int, to as int),
            ),
        decreases to - start,
    {
        assert(chars@.subrange(start as int, to as int).drop_first() =~= chars@.subrange(
            start + 1,
            to as int,
        ));
        start = start + 1;
    }
    assert(trim_start_seq(chars@.subrange(start as int, to as int)) == chars@.subrange(
        start as int,
        to as int,
    ));
    let mut end = to;
    while end > start && is_whitespace(chars[end - 1])
        invariant
            from <= start <= end <= to <= chars@.len(),
            trim_end_seq(chars@.subrange(start as int, to as int)) == trim_end_seq(
                chars@.subrange(start as int, end as int),
            ),
        decreases end - start,
    {
        assert(chars@.subrange(start as int, end as int).drop_last() =~= chars@.subrange(
            start as int,
            end - 1,
        ));
        end = end - 1;
    }
    (start, end)
}

/// Whether `chars[from..to]` is exactly `text`.
fn range_is(chars: &Vec<char>, from: usize, to: usize, text: &str) -> (same: bool)
    requires
        from <= to <= chars@.len(),
    ensures
        same == (chars@.subrange(from as int, to as int) == text@),
{
    let n = text.unicode_len();
    if to - from != n {
        return false;
    }
    let mut i: usize = 0;
    while i < n
        invariant
            n == text@.len(),
            to - from == n,
            from <= to <= chars@.len(),
            i <= n,
            forall|j: int| 0 <= j < i ==> chars@[from + j] == text@[j],
        decreases n - i,
    {
        if chars[from + i] != text.get_char(i) {
            assert(chars@.subrange(from as int, to as int)[i as int] != text@[i as int]);
            return false;
        }
        i = i + 1;
    }
    assert(chars@.subrange(from as int, to as int) =~= text@);
    true
}

/// Whether `chars[from..to]` begins with `text`.
fn range_starts_with(chars: &Vec<char>, from: usize, to: usize, text: &str) -> (starts: bool)
    requires
        from <= to <= chars@.len(),
    ensures
        starts == (to - from >= text@.len() && chars@.subrange(from as int, to as int).take(
            text@.len() as int,
        ) == text@),
{
    let n = text.unicode_len();
    if to - from < n {
        return false;
    }
    let same = range_is(chars, from, from + n, text);
    assert(chars@.subrange(from as int, to as int).take(n as int) =~= chars@.subrange(
        from as int,
        from + n,
    ));
    same
}

/// The bounds of `chars[from..to]` without matching quotes around it.
fn unquote_range(chars: &Vec<char>, from: usize, to: usize) -> (range: (usize, usize))
    requires
        from <= to <= chars@.len(),
    ensures
        range.0 <= range.1 <= chars@.len(),
        chars@.subrange(range.0 as int, range.1 as int) == unquote_seq(
            chars@.subrange(from as int, to as int),
        ),
{
    if to - from >= 2 && ((chars[from] == '"' && chars[to - 1] == '"') || (chars[from] == '\''
        && chars[to - 1] == '\'')) {
        assert(chars@.subrange(from + 1, to - 1) =~= chars@.subrange(from as int, to as int).subrange(
            1,
            to - from - 1,
        ));
        (from + 1, to - 1)
    } else {
        (from, to)
    }
}

/// A YAML scalar without the matching quotes around it, if it has them.
pub fn unquote_yaml_scalar(value: &str) -> (unquoted: String)
    ensures
        unquoted@ == unquote_seq(value@),
{
    let chars = char_vec(value);
    let (start, end) = unquote_range(&chars, 0, chars.len());
    assert(chars@.subrange(0, chars@.len() as int) =~= value@);
    String::from_str(value.substring_char(start, end))
}

/// The index of the first `c` in `chars[from..to]`, or `to`.
pub(crate) fn find_char(chars: &Vec<char>, from: usize, to: usize, c: char) -> (found: usize)
    requires
        from <= to <= chars@.len(),
    ensures
        from <= found <= to,
        found - from == index_of_char(chars@.subrange(from as int, to as int), c),
{
    let mut i = from;
    while i < to && chars[i] != c
        invariant
            from <= i <= to <= chars@.len(),
            forall|j: int| from <= j < i ==> chars@[j] != c,
        decreases to - i,
    {
        i = i + 1;
    }
    proof {
        let sub = chars@.subrange(from as int, to as int);
        assert forall|j: int| 0 <= j < i - from implies sub[j] != c by {
            assert(sub[j] == chars@[from + j]);
        }
        lemma_index_of_char_is_first(sub, c, i - from);
    }
    i
}

/// `path:line: message`.
fn line_error_string(path: &str, number: usize, message: &str) -> (error: String)
    ensures
        error@ == line_error(path@, number as nat, message@),
{
    let mut error = String::from_str(path);
    error.append(":");
    let digits = decimal_string(number as u64);
    error.append(digits.as_str());
    error.append(": ");
    error.append(message);
    error
}

/// Whether a dependency named `chars[from..to]` is already listed.
fn dependency_listed(dependencies: &Vec<(String, String)>, name: &String) -> (listed: bool)
    ensures
        listed == has_dependency(dependency_views(dependencies@), name@),
{
    let ghost views = dependency_views(dependencies@);
    let mut i: usize = 0;
    while i < dependencies.len()
        invariant
            i <= dependencies@.len(),
            views == dependency_views(dependencies@),
            forall|j: int| 0 <= j < i ==> #[trigger] views[j].0 != name@,
        decreases dependencies.len() - i,
    {
        if dependencies[i].0.eq(name) {
            assert(views[i as int].0 == name@);
            return true;
        }
        i = i + 1;
    }
    false
}

/// Reads a project manifest: its `noStd` setting and the entries of its
/// `dependencies:` block. `path` names the file in error messages, which have
/// the form `path:line: message`.
pub fn parse_project_manifest(path: &str, source: &str) -> (manifest: Result<ProjectManifest, String>)
    requires
        source@.len() < usize::MAX,
    ensures
        match manifest_lines(path@, source@, 1, (false, false, seq![])) {
            Ok(state) => manifest matches Ok(m) && m.no_std == state.1 && dependency_views(
                m.dependencies@,
            ) == state.2,
            Err(message) => manifest matches Err(e) && e@ == message,
        },
        manifest matches Ok(m) ==> names_distinct(dependency_views(m.dependencies@)),
{
    proof {
        law_manifest_names_distinct(path@, source@, 1, (false, false, seq![]));
    }
    let chars = char_vec(source);
    let mut in_dependencies = false;
    let mut no_std = false;
    let mut dependencies: Vec<(String, String)> = Vec::new();
    let mut start: usize = 0;
    let mut number: usize = 1;
    assert(source@.skip(0) =~= source@);
    assert(dependency_views(dependencies@) =~= seq![]);
    while start < chars.len()
        invariant
            chars@ == source@,
            chars@.len() < usize::MAX,
            start <= chars@.len(),
            1 <= number <= start + 1,
            manifest_lines(path@, source@, 1, (false, false, seq![])) matches Ok(last) ==> names_distinct(
                last.2,
            ),
            manifest_lines(path@, source@, 1, (false, false, seq![])) == manifest_lines(
                path@,
                source@.skip(start as int),
                number as nat,
                (in_dependencies, no_std, dependency_views(dependencies@)),
            ),
        decreases chars.len() - start,
    {
        proof {
            reveal_strlit("dependencies:");
            reveal_strlit("noStd:");
            reveal_strlit("true");
            reveal_strlit("false");
        }
        let ghost text = source@.skip(start as int);
        let ghost state = (in_dependencies, no_std, dependency_views(dependencies@));
        let end = find_char(&chars, start, chars.len(), '\n');
        assert(chars@.subrange(start as int, chars@.len() as int) =~= text);
        assert(chars@.subrange(start as int, end as int) =~= text.take(end - start));
        let (first, last) = trim_range(&chars, start, end);
        let ghost line = text.take(end - start);
        let ghost trimmed = trim_seq(line);
        assert(trimmed =~= chars@.subrange(first as int, last as int));
        let mut outcome: Result<(), String> = Ok(());
        if first == last || chars[first] == '#' {
        } else if !is_whitespace(chars[start]) {
            assert(line[0] == chars@[start as int]);
            in_dependencies = range_is(&chars, first, last, "dependencies:");
            if range_starts_with(&chars, first, last, "noStd:") {
                assert(trimmed.skip(6) =~= chars@.subrange(first + 6, last as int));
                let (a, b) = trim_range(&chars, first + 6, last);
                let value = unquote_yaml_scalar(source.substring_char(a, b));
                if string_is(&value, "true") {
                    no_std = true;
                } else if string_is(&value, "false") {
                    no_std = false;
                } else {
                    outcome = Err(
                        line_error_string(path, number, "expected `noStd` to be `true` or `false`"),
                    );
                }
            }
        } else if in_dependencies {
            assert(line[0] == chars@[start as int]);
            let colon = find_char(&chars, first, last, ':');
            let (a, b) = trim_range(&chars, first, colon);
            assert(trimmed.take(colon - first) =~= chars@.subrange(first as int, colon as int));
            if colon == last {
                outcome = Err(
                    line_error_string(path, number, "expected `name: fs:path` dependency entry"),
                );
            } else {
                let (c, d) = trim_range(&chars, colon + 1, last);
                assert(trimmed.skip(colon - first + 1) =~= chars@.subrange(colon + 1, last as int));
                if a == b || c == d {
                    outcome = Err(
                        line_error_string(
                            path,
                            number,
                            "expected `name: fs:path` dependency entry",
                        ),
                    );
                } else {
                    let name = String::from_str(source.substring_char(a, b));
                    if dependency_listed(&dependencies, &name) {
                        let mut message = String::from_str("duplicate dependency `");
                        message.append(name.as_str());
                        message.append("`");
                        outcome = Err(line_error_string(path, number, message.as_str()));
                    } else {
                        let value = unquote_yaml_scalar(source.substring_char(c, d));
                        let ghost old_dependencies = dependencies@;
                        dependencies.push((name, value));
                        assert(dependency_views(dependencies@) =~= dependency_views(
                            old_dependencies,
                        ).push((name@, value@)));
                    }
                }
            }
        }
        if let Err(message) = outcome {
            return Err(message);
        }
        if end == chars.len() {
            return Ok(ProjectManifest { dependencies, no_std });
        }
        assert(text.skip(end - start + 1) =~= source@.skip(end + 1));
        start = end + 1;
        number = number + 1;
    }
    assert(source@.skip(start as int) =~= seq![]);
    Ok(ProjectManifest { dependencies, no_std })
}

/// The local paths of a manifest's dependencies, in order: each source must
/// be `fs:` followed by the path, and no dependency may be named `std`. The
/// first dependency that breaks a rule gives the error, prefixed with the
/// manifest's path.
pub open spec fn dependency_paths(manifest: Seq<char>, dependencies: Seq<(Seq<char>, Seq<char>)>)
    -> Result<Seq<(Seq<char>, Seq<char>)>, Seq<char>>
    decreases dependencies.len(),
{
    if dependencies.len() == 0 {
        Ok(seq![])
    } else {
        let name = dependencies[0].0;
        let source = dependencies[0].1;
        if name == "std"@ {
            Err(manifest + ": dependency name `std` is reserved for the standard library"@)
        } else if !(source.len() >= 3 && source.take(3) == "fs:"@) {
            Err(manifest + ": dependency `"@ + name + "` uses unsupported source `"@ + source + "`"@)
        } else {
            match dependency_paths(manifest, dependencies.drop_first()) {
                Ok(rest) => Ok(seq![(name, source.skip(3))] + rest),
                Err(message) => Err(message),
            }
        }
    }
}

proof fn lemma_dependency_paths_skip(
    manifest: Seq<char>,
    dependencies: Seq<(Seq<char>, Seq<char>)>,
    i: int,
)
    requires
        0 <= i < dependencies.len(),
    ensures
        dependencies.skip(i).drop_first() == dependencies.skip(i + 1),
        dependencies.skip(i)[0] == dependencies[i],
{
    assert(dependencies.skip(i).drop_first() =~= dependencies.skip(i + 1));
}

/// Checks the dependencies of the manifest at `manifest_path` and gives each
/// name with the path after its `fs:` source (see `dependency_paths`).
pub fn manifest_dependency_paths(manifest_path: &str, dependencies: &Vec<(String, String)>) -> (paths:
    Result<Vec<(String, String)>, String>)
    ensures
        match dependency_paths(manifest_path@, dependency_views(dependencies@)) {
            Ok(expected) => paths matches Ok(p) && dependency_views(p@) == expected,
            Err(message) => paths matches Err(e) && e@ == message,
        },
{
    let ghost all = dependency_views(dependencies@);
    let mut paths: Vec<(String, String)> = Vec::new();
    let mut i: usize = 0;
    assert(all.skip(0) =~= all);
    while i < dependencies.len()
        invariant
            i <= dependencies@.len(),
            all == dependency_views(dependencies@),
            dependency_paths(manifest_path@, all) == match dependency_paths(manifest_path@, all.skip(i as int)) {
                Ok(rest) => Ok(dependency_views(paths@) + rest),
                Err(message) => Err(message),
            },
        decreases dependencies.len() - i,
    {
        proof {
            reveal_strlit("std");
            reveal_strlit("fs:");
            lemma_dependency_paths_skip(manifest_path@, all, i as int);
        }
        let name = &dependencies[i].0;
        let source = &dependencies[i].1;
        if string_is(name, "std") {
            let mut message = String::from_str(manifest_path);
            message.append(": dependency name `std` is reserved for the standard library");
            return Err(message);
        }
        let source_chars = char_vec(source.as_str());
        if !range_starts_with(&source_chars, 0, source_chars.len(), "fs:") {
            assert(source_chars@.subrange(0, source_chars@.len() as int) =~= source@);
            let mut message = String::from_str(manifest_path);
            message.append(": dependency `");
            message.append(name.as_str());
            message.append("` uses unsupported source `");
            message.append(source.as_str());
            message.append("`");
            return Err(message);
        }
        assert(source_chars@.subrange(0, source_chars@.len() as int) =~= source@);
        let path = String::from_str(source.as_str().substring_char(3, source_chars.len()));
        let ghost before = dependency_views(paths@);
        paths.push((name.clone(), path));
        proof {
            assert(dependency_views(paths@) =~= before.push((name@, source@.skip(3))));
            let rest = dependency_paths(manifest_path@, all.skip(i + 1));
            if let Ok(tail) = rest {
                assert(before + (seq![(name@, source@.skip(3))] + tail) =~= before.push(
                    (name@, source@.skip(3)),
                ) + tail);
            }
        }
        i = i + 1;
    }
    proof {
        assert(all.skip(i as int) =~= seq![]);
        assert(dependency_views(paths@) + seq![] =~= dependency_views(paths@));
    }
    Ok(paths)
}

} // verus!
