use vstd::prelude::*;

use crate::text::{join_seqs, join_strings, string_is, string_views};

verus! {

/// A path segment that names something: neither empty nor `.`.
pub open spec fn kept_segment(segment: Seq<char>) -> Seq<Seq<char>> {
    if segment.len() > 0 && segment != seq!['.'] {
        seq![segment]
    } else {
        seq![]
    }
}

/// The named segments of `path[start..]`, where the segment being read began at
/// `start` and scanning has reached `i`.
pub open spec fn segments_from(path: Seq<char>, start: int, i: int) -> Seq<Seq<char>>
    decreases path.len() - i,
{
    if i >= path.len() {
        kept_segment(path.subrange(start, path.len() as int))
    } else if path[i] == '/' {
        kept_segment(path.subrange(start, i)) + segments_from(path, i + 1, i + 1)
    } else {
        segments_from(path, start, i + 1)
    }
}

/// The components of a `/`-separated path, without empty and `.` components.
pub open spec fn path_segments(path: Seq<char>) -> Seq<Seq<char>> {
    segments_from(path, 0, 0)
}

/// `prefix` is a leading part of `segments`.
pub open spec fn segments_start_with(segments: Seq<Seq<char>>, prefix: Seq<Seq<char>>) -> bool {
    prefix.len() <= segments.len() && segments.take(prefix.len() as int) == prefix
}

/// The fewest steps `k` (at least `from`) up from `root` that reach a directory holding `path`.
pub open spec fn steps_up(root: Seq<Seq<char>>, path: Seq<Seq<char>>, from: nat) -> nat
    decreases root.len() - from,
{
    if from >= root.len() {
        root.len()
    } else if segments_start_with(path, root.take(root.len() - from)) {
        from
    } else {
        steps_up(root, path, from + 1)
    }
}

/// `path` written relative to `root`: `..` for each step up from `root` to the
/// nearest directory that holds `path`, then the rest of `path`.
pub open spec fn spec_relative_path(root: Seq<char>, path: Seq<char>) -> Seq<char> {
    if is_absolute(root) == is_absolute(path) {
        join_seqs(relative_parts(root, path), seq!['/'])
    } else if is_absolute(root) {
        file_name_or_whole(path)
    } else {
        path
    }
}

/// The path starts at the file system's root.
pub open spec fn is_absolute(path: Seq<char>) -> bool {
    path.len() > 0 && path[0] == '/'
}

/// The last named component of `path`, or all of `path` where it ends in `..`
/// or names nothing.
pub open spec fn file_name_or_whole(path: Seq<char>) -> Seq<char> {
    let p = path_segments(path);
    if p.len() > 0 && p.last() != seq!['.', '.'] {
        p.last()
    } else {
        path
    }
}

/// The components of `path` relative to `root`.
pub open spec fn relative_parts(root: Seq<char>, path: Seq<char>) -> Seq<Seq<char>> {
    let r = path_segments(root);
    let p = path_segments(path);
    let k = steps_up(r, p, 0);
    Seq::new(k, |i: int| seq!['.', '.']) + p.skip(r.len() - k)
}

/// A path inside the root is written as the rest of its components after the
/// root's.
pub proof fn law_relative_path_inside_root(root: Seq<char>, path: Seq<char>)
    requires
        segments_start_with(path_segments(path), path_segments(root)),
    ensures
        relative_parts(root, path) == path_segments(path).skip(path_segments(root).len() as int),
{
    let r = path_segments(root);
    let p = path_segments(path);
    assert(r.take(r.len() - 0) =~= r);
    assert(steps_up(r, p, 0) == 0);
    assert(Seq::new(0, |i: int| seq!['.', '.']) + p.skip(r.len() as int) =~= p.skip(r.len() as int));
}

/// Splits a path into its named components.
pub fn path_segments_of(path: &str) -> (segments: Vec<String>)
    ensures
        string_views(segments@) == path_segments(path@),
{
    let n = path.unicode_len();
    let mut segments: Vec<String> = Vec::new();
    let mut start: usize = 0;
    let mut i: usize = 0;
    proof {
        reveal_strlit("/");
    }
    while i < n
        invariant
            n == path@.len(),
            start <= i <= n,
            string_views(segments@) + segments_from(path@, start as int, i as int) == path_segments(
                path@,
            ),
        decreases n - i,
    {
        if path.get_char(i) == '/' {
            let ghost before = string_views(segments@);
            push_segment(&mut segments, path.substring_char(start, i));
            assert(string_views(segments@) =~= before + kept_segment(
                path@.subrange(start as int, i as int),
            ));
            start = i + 1;
        }
        i = i + 1;
    }
    let ghost before = string_views(segments@);
    push_segment(&mut segments, path.substring_char(start, n));
    assert(string_views(segments@) =~= before + kept_segment(path@.subrange(start as int, n as int)));
    segments
}

/// Appends `segment` unless it is empty or `.`.
fn push_segment(segments: &mut Vec<String>, segment: &str)
    ensures
        string_views(final(segments)@) == string_views(old(segments)@) + kept_segment(segment@),
{
    proof {
        reveal_strlit(".");
    }
    let length = segment.unicode_len();
    let dot = length == 1 && segment.get_char(0) == '.';
    if length > 0 && !dot {
        segments.push(String::from_str(segment));
        assert(string_views(segments@) =~= string_views(old(segments)@) + kept_segment(segment@));
    } else {
        assert(dot ==> segment@ =~= seq!['.']);
        assert(kept_segment(segment@) =~= Seq::<Seq<char>>::empty());
        assert(string_views(segments@) =~= string_views(old(segments)@) + kept_segment(segment@));
    }
}

/// Whether the first components of `segments` are exactly `prefix[..count]`.
fn starts_with_segments(segments: &Vec<String>, prefix: &Vec<String>, count: usize) -> (found: bool)
    requires
        count <= prefix@.len(),
    ensures
        found == segments_start_with(
            string_views(segments@),
            string_views(prefix@).take(count as int),
        ),
{
    if count > segments.len() {
        return false;
    }
    let mut i: usize = 0;
    while i < count
        invariant
            count <= prefix@.len(),
            count <= segments@.len(),
            i <= count,
            forall|j: int| 0 <= j < i ==> #[trigger] segments@[j]@ == prefix@[j]@,
        decreases count - i,
    {
        if !segments[i].eq(&prefix[i]) {
            proof {
                let a = string_views(segments@).take(count as int);
                let b = string_views(prefix@).take(count as int);
                assert(a[i as int] != b[i as int]);
            }
            return false;
        }
        i = i + 1;
    }
    assert(string_views(segments@).take(count as int) =~= string_views(prefix@).take(count as int));
    true
}

fn starts_at_root(path: &str) -> (absolute: bool)
    ensures
        absolute == is_absolute(path@),
{
    path.unicode_len() > 0 && path.get_char(0) == '/'
}

/// Writes `path` relative to the project `root` (both `/`-separated). Where
/// both are absolute or both relative: `..` for each directory that has to be
/// left, then the remaining components of `path`. An absolute root cannot
/// reach a relative path, which is named by its file name (or as it stands
/// where it has none); a relative root leaves an absolute path as it stands.
pub fn relative_source_path(root: &str, path: &str) -> (relative: String)
    ensures
        relative@ == spec_relative_path(root@, path@),
{
    let root_absolute = starts_at_root(root);
    let path_absolute = starts_at_root(path);
    if root_absolute == path_absolute {
        return relative_by_components(root, path);
    }
    if root_absolute {
        let segments = path_segments_of(path);
        let count = segments.len();
        proof {
            reveal_strlit("..");
            assert(".."@ =~= seq!['.', '.']);
            assert(string_views(segments@).len() == count);
            assert(path_segments(path@) == string_views(segments@));
        }
        if count > 0 && !string_is(&segments[count - 1], "..") {
            proof {
                assert(string_views(segments@).last() == segments@[count - 1]@);
            }
            return segments[count - 1].clone();
        }
        proof {
            if count > 0 {
                assert(string_views(segments@).last() == segments@[count - 1]@);
            }
        }
        return String::from_str(path);
    }
    String::from_str(path)
}

/// `path` relative to `root` by their components (see `relative_parts`).
fn relative_by_components(root: &str, path: &str) -> (relative: String)
    ensures
        relative@ == join_seqs(relative_parts(root@, path@), seq!['/']),
{
    let root_segments = path_segments_of(root);
    let path_segments = path_segments_of(path);
    let ghost r = string_views(root_segments@);
    let ghost p = string_views(path_segments@);
    let n = root_segments.len();
    let mut k: usize = 0;
    loop
        invariant_except_break
            n == r.len(),
            k <= n,
            r == string_views(root_segments@),
            p == string_views(path_segments@),
            steps_up(r, p, 0) == steps_up(r, p, k as nat),
        ensures
            k <= n,
            steps_up(r, p, 0) == k,
            n - k <= p.len(),
        decreases n - k,
    {
        if k >= n {
            break;
        }
        if starts_with_segments(&path_segments, &root_segments, n - k) {
            assert(r.take((n - k) as int) == string_views(root_segments@).take((n - k) as int));
            break;
        }
        k = k + 1;
    }
    let mut parts: Vec<String> = Vec::new();
    let mut i: usize = 0;
    while i < k
        invariant
            i <= k,
            parts@.len() == i,
            string_views(parts@) =~= Seq::new(i as nat, |j: int| seq!['.', '.']),
        decreases k - i,
    {
        proof {
            reveal_strlit("..");
        }
        let ghost previous = parts@;
        parts.push(String::from_str(".."));
        assert forall|x: int| 0 <= x < i + 1 implies #[trigger] string_views(parts@)[x] == seq![
            '.',
            '.',
        ] by {
            if x < i {
                assert(parts@[x] == previous[x]);
                assert(string_views(previous)[x] == seq!['.', '.']);
            }
        }
        i = i + 1;
    }
    let ghost dots = Seq::new(k as nat, |x: int| seq!['.', '.']);
    assert(string_views(parts@) =~= dots + p.subrange((n - k) as int, (n - k) as int));
    let mut j: usize = n - k;
    while j < path_segments.len()
        invariant
            n - k <= j <= path_segments@.len(),
            dots.len() == k,
            k <= n,
            p.len() == path_segments@.len(),
            parts@.len() == k + (j - (n - k)),
            p == string_views(path_segments@),
            string_views(parts@) =~= dots + p.subrange((n - k) as int, j as int),
        decreases path_segments.len() - j,
    {
        let ghost previous = parts@;
        parts.push(path_segments[j].clone());
        proof {
            assert(string_views(parts@) =~= string_views(previous).push(p[j as int]));
            lemma_subrange_push(p, (n - k) as int, j as int);
            assert(dots + p.subrange((n - k) as int, j + 1) =~= (dots + p.subrange(
                (n - k) as int,
                j as int,
            )).push(p[j as int]));
        }
        j = j + 1;
    }
    proof {
        reveal_strlit("/");
        assert(p.subrange((n - k) as int, p.len() as int) =~= p.skip(r.len() - k));
        assert(string_views(parts@) =~= relative_parts(root@, path@));
    }
    let relative = join_strings(&parts, "/");
    proof {
        reveal_strlit("/");
        assert("/"@ =~= seq!['/']);
    }
    relative
}

proof fn lemma_subrange_push<T>(s: Seq<T>, a: int, b: int)
    requires
        0 <= a <= b < s.len(),
    ensures
        s.subrange(a, b + 1) == s.subrange(a, b).push(s[b]),
{
    assert(s.subrange(a, b + 1) =~= s.subrange(a, b).push(s[b]));
}

} // verus!
