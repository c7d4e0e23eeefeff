//! Request paths as places below a document root.
//!
//! A path is read as segments between `/`. Empty segments and `.` stay where
//! they are, `..` steps back to the parent, anything else steps down. A path
//! that steps back from the root itself has left it and is refused; any
//! other path comes out as the segments that remain, joined by `/`.

use vstd::prelude::*;
use vstd::std_specs::iter::IteratorSpec;
use vstd::string::StringExecFns;

verus! {

/// A sequence of segments.
pub type Segments = Seq<Seq<char>>;

/// The segment that names the parent directory.
pub open spec fn parent_segment() -> Seq<char> {
    seq!['.', '.']
}

/// The segment that names the directory itself.
pub open spec fn current_segment() -> Seq<char> {
    seq!['.']
}

/// The segments of `path`: what stands between one `/` and the next, from
/// the start to the end. There is always at least one, and `n` separators
/// give `n + 1` segments.
pub open spec fn segments(path: Seq<char>) -> Segments
    decreases path.len(),
{
    if path.len() == 0 {
        seq![Seq::<char>::empty()]
    } else if path.last() == '/' {
        segments(path.drop_last()).push(Seq::<char>::empty())
    } else {
        let before = segments(path.drop_last());
        before.drop_last().push(before.last().push(path.last()))
    }
}

/// Where one more segment leads from the directory that `kept` names below
/// the root: nowhere once the root was left, or when `..` is met at the
/// root.
pub open spec fn descend(kept: Option<Segments>, segment: Seq<char>) -> Option<Segments> {
    match kept {
        None => None,
        Some(kept) => if segment == parent_segment() {
            if kept.len() == 0 {
                None
            } else {
                Some(kept.drop_last())
            }
        } else if segment.len() == 0 || segment == current_segment() {
            Some(kept)
        } else {
            Some(kept.push(segment))
        },
    }
}

/// The directory names that lead from the root to where `segments` end, or
/// `None` if they leave the root on the way.
pub open spec fn resolve(segments: Segments) -> Option<Segments>
    decreases segments.len(),
{
    if segments.len() == 0 {
        Some(Seq::empty())
    } else {
        descend(resolve(segments.drop_last()), segments.last())
    }
}

/// The segments written out with a `/` between each two.
pub open spec fn join(segments: Segments) -> Seq<char>
    decreases segments.len(),
{
    if segments.len() == 0 {
        Seq::empty()
    } else if segments.len() == 1 {
        segments[0]
    } else {
        join(segments.drop_last()) + seq!['/'] + segments.last()
    }
}

/// The place that `path` names, relative to the root, or `None` if `path`
/// leaves the root.
pub open spec fn sanitized(path: Seq<char>) -> Option<Seq<char>> {
    match resolve(segments(path)) {
        Some(kept) => Some(join(kept)),
        None => None,
    }
}

/// The file at `relative` below `root`: the two joined by exactly one `/`,
/// unless `root` is empty or brings its own.
pub open spec fn below(root: Seq<char>, relative: Seq<char>) -> Seq<char> {
    if root.len() == 0 || root.last() == '/' {
        root + relative
    } else {
        root + seq!['/'] + relative
    }
}

/// What each of the string slices holds.
pub open spec fn texts(slices: Seq<&str>) -> Segments {
    Seq::new(slices.len(), |i: int| slices[i]@)
}

/// Whether `segment` is the name of a file or directory: not empty, and
/// neither `.` nor `..`.
pub open spec fn is_name(segment: Seq<char>) -> bool {
    segment.len() > 0 && segment != current_segment() && segment != parent_segment()
}

/// How far below the root `segments` end, if stepping back were never
/// refused: the names among them, less the `..`.
pub open spec fn depth(segments: Segments) -> int
    decreases segments.len(),
{
    if segments.len() == 0 {
        0
    } else if segments.last() == parent_segment() {
        depth(segments.drop_last()) - 1
    } else if is_name(segments.last()) {
        depth(segments.drop_last()) + 1
    } else {
        depth(segments.drop_last())
    }
}

/// Whether `segments` leave the root: at some point they have stepped back
/// more often than down.
pub open spec fn leaves_root(segments: Segments) -> bool {
    exists|n: int| 0 <= n <= segments.len() && depth(#[trigger] segments.take(n)) < 0
}

/// A path has one segment more than it has separators; in particular it has
/// a segment.
pub proof fn lemma_segments_exist(path: Seq<char>)
    ensures
        segments(path).len() >= 1,
    decreases path.len(),
{
    if path.len() > 0 {
        lemma_segments_exist(path.drop_last());
    }
}

/// No segment of a path holds a separator.
pub proof fn lemma_segments_hold_no_separator(path: Seq<char>)
    ensures
        forall|k: int|
            0 <= k < segments(path).len() ==> !(#[trigger] segments(path)[k]).contains('/'),
    decreases path.len(),
{
    if path.len() > 0 {
        let before = segments(path.drop_last());
        lemma_segments_exist(path.drop_last());
        lemma_segments_hold_no_separator(path.drop_last());
        if path.last() != '/' {
            let grown = before.last().push(path.last());
            assert forall|i: int| 0 <= i < grown.len() implies grown[i] != '/' by {}
        }
    }
}

/// The segments of a path, joined again, are the path.
pub proof fn lemma_join_of_segments(path: Seq<char>)
    ensures
        join(segments(path)) == path,
    decreases path.len(),
{
    if path.len() > 0 {
        let shorter = path.drop_last();
        let before = segments(shorter);
        lemma_segments_exist(shorter);
        lemma_join_of_segments(shorter);
        if path.last() == '/' {
            let after = before.push(Seq::<char>::empty());
            assert(after.drop_last() =~= before);
        } else {
            let grown = before.last().push(path.last());
            let after = before.drop_last().push(grown);
            assert(after.drop_last() =~= before.drop_last());
            if before.len() > 1 {
                assert(join(after) =~= (join(before.drop_last()) + seq!['/'] + before.last()).push(
                    path.last(),
                ));
            }
        }
    }
}

/// Text without a separator, written behind a path, lengthens the path's
/// last segment and leaves the others as they are.
pub proof fn lemma_segments_of_longer_path(path: Seq<char>, more: Seq<char>)
    requires
        !more.contains('/'),
    ensures
        segments(path + more) == segments(path).drop_last().push(segments(path).last() + more),
    decreases more.len(),
{
    lemma_segments_exist(path);
    if more.len() > 0 {
        let shorter = more.drop_last();
        assert forall|i: int| 0 <= i < shorter.len() implies shorter[i] != '/' by {}
        lemma_segments_of_longer_path(path, shorter);
        assert((path + more).drop_last() =~= path + shorter);
        let before = segments(path + shorter);
        assert(before.last().push(more.last()) =~= segments(path).last() + more);
    }
}

/// Segments without a separator in them, joined, are a path with exactly
/// those segments.
pub proof fn lemma_segments_of_join(kept: Segments)
    requires
        kept.len() > 0,
        forall|k: int| 0 <= k < kept.len() ==> !(#[trigger] kept[k]).contains('/'),
    ensures
        segments(join(kept)) == kept,
    decreases kept.len(),
{
    if kept.len() == 1 {
        let empty = Seq::<char>::empty();
        lemma_segments_of_longer_path(empty, kept[0]);
    } else {
        let front = kept.drop_last();
        assert forall|k: int| 0 <= k < front.len() implies !(#[trigger] front[k]).contains(
            '/',
        ) by {}
        lemma_segments_of_join(front);
        let head = join(front) + seq!['/'];
        assert(head.drop_last() =~= join(front));
        lemma_segments_of_longer_path(head, kept.last());
    }
}

/// What is left of segments that stay below the root are names, each taken
/// from among the segments.
pub proof fn lemma_resolved_segments_are_names(segments: Segments)
    ensures
        resolve(segments) matches Some(kept) ==> forall|k: int|
            0 <= k < kept.len() ==> is_name(#[trigger] kept[k]) && segments.contains(kept[k]),
    decreases segments.len(),
{
    if segments.len() > 0 {
        let front = segments.drop_last();
        lemma_resolved_segments_are_names(front);
        if let Some(kept) = resolve(segments) {
            let before = resolve(front)->0;
            assert forall|k: int| 0 <= k < kept.len() implies is_name(#[trigger] kept[k])
                && segments.contains(kept[k]) by {
                if k < before.len() {
                    let at = choose|at: int| 0 <= at < front.len() && front[at] == before[k];
                }
            }
        }
    }
}

/// Segments leave the root exactly when, somewhere along them, `..` has
/// been met more often than a name. Where they stay below the root, as
/// many names are left as the segments end deep.
pub proof fn lemma_resolve_fails_iff_leaves_root(segments: Segments)
    ensures
        resolve(segments) is None <==> leaves_root(segments),
        resolve(segments) matches Some(kept) ==> kept.len() == depth(segments),
    decreases segments.len(),
{
    if segments.len() == 0 {
        assert forall|n: int| 0 <= n <= segments.len() implies depth(
            #[trigger] segments.take(n),
        ) >= 0 by {}
    } else {
        let front = segments.drop_last();
        lemma_resolve_fails_iff_leaves_root(front);
        assert(segments.take(segments.len() as int) =~= segments);
        match resolve(front) {
            None => {
                let n = choose|n: int| 0 <= n <= front.len() && depth(#[trigger] front.take(n)) < 0;
                assert(segments.take(n) =~= front.take(n));
            },
            Some(before) => {
                if resolve(segments) is Some {
                    assert forall|n: int| 0 <= n <= segments.len() implies depth(
                        #[trigger] segments.take(n),
                    ) >= 0 by {
                        if n < segments.len() {
                            assert(segments.take(n) =~= front.take(n));
                        }
                    }
                }
            },
        }
    }
}

/// A sanitised path holds no `..`: its segments are names, so it names a
/// place at or below whatever it is joined to. It is empty only where the
/// path names the root itself.
pub proof fn lemma_sanitized_stays_below(path: Seq<char>)
    ensures
        sanitized(path) matches Some(relative) ==> {
            &&& forall|k: int|
                0 <= k < segments(relative).len() ==> (#[trigger] segments(relative)[k])
                    != parent_segment()
            &&& relative.len() > 0 ==> forall|k: int|
                0 <= k < segments(relative).len() ==> is_name(#[trigger] segments(relative)[k])
        },
{
    if let Some(kept) = resolve(segments(path)) {
        let relative = join(kept);
        lemma_resolved_segments_are_names(segments(path));
        lemma_segments_hold_no_separator(path);
        if kept.len() > 0 {
            assert forall|k: int| 0 <= k < kept.len() implies !(#[trigger] kept[k]).contains(
                '/',
            ) by {
                let at = choose|at: int|
                    0 <= at < segments(path).len() && segments(path)[at] == kept[k];
            }
            lemma_segments_of_join(kept);
        }
    }
}

fn is_parent_segment(segment: &str) -> (b: bool)
    ensures
        b == (segment@ == parent_segment()),
{
    let found = segment.unicode_len() == 2 && segment.get_char(0) == '.' && segment.get_char(1)
        == '.';
    proof {
        if found {
            assert(segment@ =~= parent_segment());
        }
    }
    found
}

fn is_current_segment(segment: &str) -> (b: bool)
    ensures
        b == (segment@ == current_segment()),
{
    let found = segment.unicode_len() == 1 && segment.get_char(0) == '.';
    proof {
        if found {
            assert(segment@ =~= current_segment());
        }
    }
    found
}

/// Takes one step from the directory that `kept` names. Returns whether the
/// step stayed below the root; if not, `kept` is as it was.
fn step<'a>(kept: &mut Vec<&'a str>, segment: &'a str) -> (inside: bool)
    ensures
        inside ==> descend(Some(texts(old(kept)@)), segment@) == Some(texts(final(kept)@)),
        !inside ==> descend(Some(texts(old(kept)@)), segment@) is None && final(kept)@ == old(
            kept,
        )@,
{
    if is_parent_segment(segment) {
        if kept.len() == 0 {
            return false;
        }
        kept.pop();
    } else if segment.unicode_len() > 0 && !is_current_segment(segment) {
        kept.push(segment);
    }
    true
}

/// Writes the slices out with a `/` between each two.
fn join_slices(kept: &Vec<&str>) -> (text: String)
    ensures
        text@ == join(texts(kept@)),
{
    let mut text = String::new();
    let mut i: usize = 0;
    while i < kept.len()
        invariant
            i <= kept.len(),
            text@ == join(texts(kept@).take(i as int)),
        decreases kept.len() - i,
    {
        let ghost so_far = texts(kept@).take(i as int);
        let ghost next = texts(kept@).take(i + 1);
        assert(next.drop_last() =~= so_far);
        if i > 0 {
            proof {
                reveal_strlit("/");
            }
            text.append("/");
        }
        text.append(kept[i]);
        i = i + 1;
    }
    assert(texts(kept@).take(kept.len() as int) =~= texts(kept@));
    text
}

/// The place that `path` names, relative to the root: its segments with
/// the empty ones and `.` left out and each `..` resolved against the
/// segment before it, joined by `/`. `None` if and only if `path` leaves
/// the root, that is, if at some point it has stepped back more often than
/// down.
pub fn sanitize(path: &str) -> (clean: Option<String>)
    ensures
        match sanitized(path@) {
            Some(text) => clean matches Some(place) && place@ == text,
            None => clean is None,
        },
{
    let total = path.unicode_len();
    let mut kept: Vec<&str> = Vec::new();
    let mut inside = true;
    let mut start: usize = 0;
    let mut at: usize = 0;
    let mut rest = path.chars();
    let ghost mut done: Segments = Seq::empty();
    assert(path@.take(0) =~= Seq::<char>::empty());
    loop
        invariant
            total == path@.len(),
            start <= at <= total,
            rest.remaining() == path@.skip(at as int),
            segments(path@.take(at as int)) == done.push(path@.subrange(start as int, at as int)),
            resolve(done) == if inside {
                Some(texts(kept@))
            } else {
                None
            },
        ensures
            at == total,
        decreases total - at,
    {
        match rest.next() {
            None => {
                break ;
            },
            Some(c) => {
                let ghost read = path@.take(at as int);
                let ghost current = path@.subrange(start as int, at as int);
                assert(path@.take(at + 1).drop_last() =~= read);
                if c == '/' {
                    let segment = path.substring_char(start, at);
                    assert(done.push(current).drop_last() =~= done);
                    if inside {
                        inside = step(&mut kept, segment);
                    }
                    proof {
                        done = done.push(current);
                    }
                    start = at + 1;
                    assert(path@.subrange(start as int, at + 1) =~= Seq::<char>::empty());
                } else {
                    assert(path@.subrange(start as int, at + 1) =~= current.push(c));
                }
                at = at + 1;
            },
        }
    }
    assert(path@.take(total as int) =~= path@);
    let segment = path.substring_char(start, total);
    assert(done.push(segment@).drop_last() =~= done);
    if inside {
        inside = step(&mut kept, segment);
    }
    if inside {
        Some(join_slices(&kept))
    } else {
        None
    }
}

/// The file at `relative` below `root`.
pub fn locate(root: &str, relative: &str) -> (place: String)
    ensures
        place@ == below(root@, relative@),
{
    let length = root.unicode_len();
    let mut place = root.to_owned();
    if length > 0 && root.get_char(length - 1) != '/' {
        proof {
            reveal_strlit("/");
        }
        place.append("/");
    }
    place.append(relative);
    place
}

} // verus!
