//! Where the entries of a package archive go inside the install root.

use crate::text::{chars_of, last_index_of, same_stretch, starts_with};
use vstd::prelude::*;
use vstd::string::*;

verus! {

/// The segments of a path: the stretches between its `/` characters. A path
/// has one segment more than it has slashes.
pub open spec fn segments(path: Seq<char>) -> Seq<Seq<char>>
    decreases path.len(),
{
    if path.len() == 0 {
        seq![Seq::<char>::empty()]
    } else {
        let before = segments(path.drop_last());
        if path.last() == '/' {
            before.push(Seq::<char>::empty())
        } else {
            before.drop_last().push(before.last().push(path.last()))
        }
    }
}

/// The path made of `parts` with a `/` between neighbours.
pub open spec fn joined(parts: Seq<Seq<char>>) -> Seq<char>
    decreases parts.len(),
{
    if parts.len() == 0 {
        Seq::<char>::empty()
    } else if parts.len() == 1 {
        parts[0]
    } else {
        joined(parts.drop_last()) + seq!['/'] + parts.last()
    }
}

/// `parts` with every run of equal neighbours reduced to its first member.
pub open spec fn without_repeats(parts: Seq<Seq<char>>) -> Seq<Seq<char>>
    decreases parts.len(),
{
    if parts.len() == 0 {
        parts
    } else {
        let before = without_repeats(parts.drop_last());
        if before.len() > 0 && before.last() == parts.last() {
            before
        } else {
            before.push(parts.last())
        }
    }
}

/// No segment is followed by an equal one.
pub open spec fn has_no_repeat(parts: Seq<Seq<char>>) -> bool {
    forall|i: int| 0 < i < parts.len() ==> parts[i - 1] != #[trigger] parts[i]
}

/// A path with its immediately repeated segments collapsed.
pub open spec fn collapsed(path: Seq<char>) -> Seq<char> {
    joined(without_repeats(segments(path)))
}

/// Every path has at least one segment, and its segments hold no `/`.
pub proof fn lemma_segments_shape(path: Seq<char>)
    ensures
        segments(path).len() >= 1,
        forall|i: int, j: int|
            0 <= i < segments(path).len() && 0 <= j < segments(path)[i].len()
                ==> #[trigger] segments(path)[i][j] != '/',
    decreases path.len(),
{
    if path.len() > 0 {
        lemma_segments_shape(path.drop_last());
    }
}

/// Joining the segments of a path gives the path back.
pub proof fn lemma_joined_segments(path: Seq<char>)
    ensures
        joined(segments(path)) == path,
    decreases path.len(),
{
    if path.len() > 0 {
        let shorter = path.drop_last();
        let before = segments(shorter);
        lemma_segments_shape(shorter);
        lemma_joined_segments(shorter);
        if path.last() == '/' {
            let parts = before.push(Seq::<char>::empty());
            assert(parts.drop_last() =~= before);
            assert(joined(parts) =~= shorter + seq!['/']);
            assert(shorter + seq!['/'] =~= path);
        } else {
            let grown = before.last().push(path.last());
            let parts = before.drop_last().push(grown);
            if before.len() == 1 {
                assert(parts[0] =~= shorter.push(path.last()));
            } else {
                assert(parts.drop_last() =~= before.drop_last());
                assert(joined(parts) =~= joined(before.drop_last()) + seq!['/'] + before.last()
                    + seq![path.last()]);
                assert(joined(before) == joined(before.drop_last()) + seq!['/'] + before.last());
            }
            assert(shorter.push(path.last()) =~= path);
        }
    }
}

/// Collapsing leaves no segment that repeats its neighbour, keeps the first
/// segment, and changes nothing where nothing repeats.
pub proof fn lemma_without_repeats(parts: Seq<Seq<char>>)
    ensures
        has_no_repeat(without_repeats(parts)),
        without_repeats(parts).len() <= parts.len(),
        parts.len() > 0 ==> without_repeats(parts).len() > 0 && without_repeats(parts)[0]
            == parts[0] && without_repeats(parts).last() == parts.last(),
        has_no_repeat(parts) ==> without_repeats(parts) == parts,
    decreases parts.len(),
{
    if parts.len() > 0 {
        let shorter = parts.drop_last();
        lemma_without_repeats(shorter);
        if has_no_repeat(parts) {
            assert forall|i: int| 0 < i < shorter.len() implies shorter[i - 1]
                != #[trigger] shorter[i] by {
                assert(parts[i - 1] != parts[i]);
            }
            if shorter.len() > 0 {
                assert(parts[parts.len() - 2] != parts[parts.len() - 1]);
            }
            assert(without_repeats(parts) =~= parts);
        }
    }
}

/// Adds the segment `chars[from..to]` to a collapsed path under
/// construction, unless it repeats the segment kept last. Returns the stretch
/// of the segment that is now the last one kept.
fn keep_segment(
    path: &str,
    chars: &Vec<char>,
    out: &mut String,
    kept: Option<(usize, usize)>,
    from: usize,
    to: usize,
    Ghost(done): Ghost<Seq<Seq<char>>>,
) -> (now: (usize, usize))
    requires
        chars@ == path@,
        from <= to <= chars.len(),
        old(out)@ == joined(without_repeats(done)),
        match kept {
            None => done.len() == 0,
            Some((a, b)) => a <= b <= chars.len() && done.len() > 0 && without_repeats(
                done,
            ).last() == chars@.subrange(a as int, b as int),
        },
    ensures
        final(out)@ == joined(
            without_repeats(done.push(chars@.subrange(from as int, to as int))),
        ),
        now.0 <= now.1 <= chars.len(),
        without_repeats(done.push(chars@.subrange(from as int, to as int))).last()
            == chars@.subrange(now.0 as int, now.1 as int),
{
    let ghost segment = chars@.subrange(from as int, to as int);
    let ghost before = without_repeats(done);
    proof {
        assert(done.push(segment).drop_last() =~= done);
        lemma_without_repeats(done);
        reveal_strlit("/");
    }
    match kept {
        None => {
            assert(before =~= Seq::<Seq<char>>::empty());
            out.append(path.substring_char(from, to));
            assert(out@ =~= segment);
            (from, to)
        },
        Some((a, b)) => {
            if same_stretch(chars, a, b, from, to) {
                (a, b)
            } else {
                out.append("/");
                out.append(path.substring_char(from, to));
                assert(before.push(segment).drop_last() =~= before);
                assert("/"@ =~= seq!['/']);
                (from, to)
            }
        },
    }
}

/// The path with every immediately repeated segment collapsed to one
/// occurrence.
pub fn collapse(path: &str) -> (out: String)
    ensures
        out@ == collapsed(path@),
{
    let chars = chars_of(path);
    let n = chars.len();
    let mut out = String::new();
    let mut kept: Option<(usize, usize)> = None;
    let mut start: usize = 0;
    let mut i: usize = 0;
    let ghost mut done: Seq<Seq<char>> = Seq::empty();
    assert(chars@.take(0) =~= Seq::<char>::empty());
    assert(chars@.subrange(0, 0) =~= Seq::<char>::empty());
    assert(segments(chars@.take(0)) =~= done.push(chars@.subrange(0, 0)));
    while i < n
        invariant
            chars@ == path@,
            n == chars.len(),
            start <= i <= n,
            segments(chars@.take(i as int)) == done.push(chars@.subrange(start as int, i as int)),
            out@ == joined(without_repeats(done)),
            match kept {
                None => done.len() == 0,
                Some((a, b)) => a <= b <= chars.len() && done.len() > 0 && without_repeats(
                    done,
                ).last() == chars@.subrange(a as int, b as int),
            },
        decreases n - i,
    {
        let ghost shorter = chars@.take(i as int);
        let ghost longer = chars@.take(i + 1);
        let ghost partial = chars@.subrange(start as int, i as int);
        proof {
            assert(longer.drop_last() =~= shorter);
            assert(longer.last() == chars@[i as int]);
            assert(done.push(partial).drop_last() =~= done);
        }
        if chars[i] == '/' {
            let now = keep_segment(path, &chars, &mut out, kept, start, i, Ghost(done));
            proof {
                done = done.push(partial);
                assert(chars@.subrange(i + 1, i + 1) =~= Seq::<char>::empty());
            }
            kept = Some(now);
            start = i + 1;
        } else {
            proof {
                assert(partial.push(chars@[i as int]) =~= chars@.subrange(start as int, i + 1));
            }
        }
        i += 1;
    }
    assert(chars@.take(n as int) =~= chars@);
    let _ = keep_segment(path, &chars, &mut out, kept, start, n, Ghost(done));
    out
}

/// The directory that, by convention, wraps every file of a package archive.
pub const WRAPPER_SEGMENT: &'static str = "package";

/// The characters of [`WRAPPER_SEGMENT`].
pub open spec fn wrapper_segment() -> Seq<char> {
    seq!['p', 'a', 'c', 'k', 'a', 'g', 'e']
}

/// The directory of a package inside the install root.
pub open spec fn install_dir(root: Seq<char>, name: Seq<char>) -> Seq<char> {
    root + seq!['/'] + name
}

/// The stored path lies under the wrapper directory: its first segment is the
/// wrapper segment.
pub open spec fn follows_convention(entry: Seq<char>) -> bool {
    entry == wrapper_segment() || (wrapper_segment() + seq!['/']).is_prefix_of(entry)
}

/// The stored path with the wrapper directory, where it leads the path,
/// replaced by the package's directory.
pub open spec fn rewritten(root: Seq<char>, name: Seq<char>, entry: Seq<char>) -> Seq<char> {
    if follows_convention(entry) {
        install_dir(root, name) + entry.skip(wrapper_segment().len() as int)
    } else {
        entry
    }
}

/// Where an archive entry is written. The rewritten path stands as it is
/// where it begins with the install root. Any other path is placed under the
/// package's directory, and the result has its repeated segments collapsed.
pub open spec fn target_path(root: Seq<char>, name: Seq<char>, entry: Seq<char>) -> Seq<char> {
    let path = rewritten(root, name, entry);
    if root.is_prefix_of(path) {
        path
    } else {
        collapsed(install_dir(root, name) + seq!['/'] + path)
    }
}

/// The directory that holds a path: all of its segments but the last. A path
/// of one segment has none.
pub open spec fn parent_of(path: Seq<char>) -> Option<Seq<char>> {
    if segments(path).len() >= 2 {
        Some(joined(segments(path).drop_last()))
    } else {
        None
    }
}

/// A path that ends in a `/` followed by a stretch without `/` has that
/// stretch as its last segment, after the segments of what precedes the `/`.
pub proof fn lemma_segments_of_tail(head: Seq<char>, tail: Seq<char>)
    requires
        !tail.contains('/'),
    ensures
        segments(head + seq!['/'] + tail) == segments(head).push(tail),
    decreases tail.len(),
{
    let path = head + seq!['/'] + tail;
    if tail.len() == 0 {
        assert(path.drop_last() =~= head);
        assert(tail =~= Seq::<char>::empty());
    } else {
        let shorter = tail.drop_last();
        assert(!shorter.contains('/')) by {
            if shorter.contains('/') {
                let k = choose|k: int| 0 <= k < shorter.len() && shorter[k] == '/';
                assert(tail[k] == '/');
            }
        }
        assert(tail.last() != '/') by {
            assert(tail[tail.len() - 1] == tail.last());
        }
        lemma_segments_of_tail(head, shorter);
        assert(path.drop_last() =~= head + seq!['/'] + shorter);
        let before = segments(head).push(shorter);
        assert(before.drop_last() =~= segments(head));
        assert(shorter.push(tail.last()) =~= tail);
    }
}

/// A path without `/` is its own single segment.
pub proof fn lemma_single_segment(path: Seq<char>)
    requires
        !path.contains('/'),
    ensures
        segments(path) == seq![path],
    decreases path.len(),
{
    if path.len() > 0 {
        let shorter = path.drop_last();
        assert(!shorter.contains('/')) by {
            if shorter.contains('/') {
                let k = choose|k: int| 0 <= k < shorter.len() && shorter[k] == '/';
                assert(path[k] == '/');
            }
        }
        assert(path.last() != '/') by {
            assert(path[path.len() - 1] == path.last());
        }
        lemma_single_segment(shorter);
        let before = seq![shorter];
        assert(before.drop_last() =~= Seq::<Seq<char>>::empty());
        assert(shorter.push(path.last()) =~= path);
        assert(before.drop_last().push(before.last().push(path.last())) =~= seq![path]);
    } else {
        assert(path =~= Seq::<char>::empty());
    }
}

/// The directory that holds `path`, if the path has more than one segment.
pub fn parent_dir(path: &str) -> (r: Option<String>)
    ensures
        match r {
            Some(dir) => parent_of(path@) == Some(dir@),
            None => parent_of(path@) is None,
        },
{
    let chars = chars_of(path);
    match last_index_of(&chars, '/') {
        Some(i) => {
            let dir = path.substring_char(0, i);
            proof {
                let head = chars@.subrange(0, i as int);
                let tail = chars@.subrange(i + 1, chars@.len() as int);
                assert(head + seq!['/'] + tail =~= path@);
                lemma_segments_of_tail(head, tail);
                assert(segments(head).push(tail).drop_last() =~= segments(head));
                lemma_segments_shape(head);
                lemma_joined_segments(head);
            }
            Some(String::from_str(dir))
        },
        None => {
            proof {
                lemma_single_segment(path@);
            }
            None
        },
    }
}

/// Where the archive entry stored as `entry` is written for the package
/// `name` under the install root `root`.
pub fn entry_target(root: &str, name: &str, entry: &str) -> (out: String)
    ensures
        out@ == target_path(root@, name@, entry@),
{
    let mut dir = String::from_str(root);
    dir.append("/");
    dir.append(name);
    proof {
        reveal_strlit("/");
        reveal_strlit("package");
        reveal_strlit("package/");
        assert("/"@ =~= seq!['/']);
        assert("package"@ =~= wrapper_segment());
        assert("package/"@ =~= wrapper_segment() + seq!['/']);
        assert(dir@ =~= install_dir(root@, name@));
    }
    let entry_chars = chars_of(entry);
    let wrapper = chars_of(WRAPPER_SEGMENT);
    let wrapper_dir = chars_of("package/");
    let whole = entry_chars.len() == wrapper.len() && starts_with(&entry_chars, &wrapper);
    proof {
        if entry_chars.len() == wrapper.len() && wrapper@.is_prefix_of(entry_chars@) {
            assert(entry@ =~= wrapper_segment());
        }
    }
    if whole || starts_with(&entry_chars, &wrapper_dir) {
        dir.append(entry.substring_char(wrapper.len(), entry_chars.len()));
        proof {
            assert(entry@.subrange(7, entry@.len() as int) =~= entry@.skip(7));
            assert(root@.is_prefix_of(dir@)) by {
                assert(dir@.subrange(0, root@.len() as int) =~= root@);
            }
        }
        dir
    } else {
        let root_chars = chars_of(root);
        if starts_with(&entry_chars, &root_chars) {
            String::from_str(entry)
        } else {
            dir.append("/");
            dir.append(entry);
            collapse(dir.as_str())
        }
    }
}

/// No part holds a `/`.
pub open spec fn slash_free(parts: Seq<Seq<char>>) -> bool {
    forall|i: int| 0 <= i < parts.len() ==> !(#[trigger] parts[i]).contains('/')
}

/// The segments of a path hold no `/`.
pub proof fn lemma_segments_slash_free(path: Seq<char>)
    ensures
        slash_free(segments(path)),
{
    lemma_segments_shape(path);
    assert forall|i: int| 0 <= i < segments(path).len() implies !(#[trigger] segments(
        path,
    )[i]).contains('/') by {
        let part = segments(path)[i];
        if part.contains('/') {
            let j = choose|j: int| 0 <= j < part.len() && part[j] == '/';
            assert(segments(path)[i][j] != '/');
        }
    }
}

/// Collapsing keeps parts free of `/`.
pub proof fn lemma_without_repeats_slash_free(parts: Seq<Seq<char>>)
    requires
        slash_free(parts),
    ensures
        slash_free(without_repeats(parts)),
    decreases parts.len(),
{
    if parts.len() > 0 {
        let shorter = parts.drop_last();
        assert forall|i: int| 0 <= i < shorter.len() implies !(#[trigger] shorter[i]).contains(
            '/',
        ) by {
            assert(shorter[i] == parts[i]);
        }
        lemma_without_repeats_slash_free(shorter);
        assert(!parts[parts.len() - 1].contains('/'));
    }
}

/// Parts without `/` are the segments of their joined path.
pub proof fn lemma_segments_of_joined(parts: Seq<Seq<char>>)
    requires
        parts.len() > 0,
        slash_free(parts),
    ensures
        segments(joined(parts)) == parts,
    decreases parts.len(),
{
    if parts.len() == 1 {
        lemma_single_segment(parts[0]);
        assert(seq![parts[0]] =~= parts);
    } else {
        let shorter = parts.drop_last();
        assert forall|i: int| 0 <= i < shorter.len() implies !(#[trigger] shorter[i]).contains(
            '/',
        ) by {
            assert(shorter[i] == parts[i]);
        }
        lemma_segments_of_joined(shorter);
        assert(!parts[parts.len() - 1].contains('/'));
        lemma_segments_of_tail(joined(shorter), parts.last());
        assert(shorter.push(parts.last()) =~= parts);
    }
}

/// A collapsed path has no segment that repeats its neighbour.
pub proof fn lemma_collapsed_has_no_repeat(path: Seq<char>)
    ensures
        segments(collapsed(path)) == without_repeats(segments(path)),
        has_no_repeat(segments(collapsed(path))),
{
    lemma_segments_shape(path);
    lemma_segments_slash_free(path);
    lemma_without_repeats(segments(path));
    lemma_without_repeats_slash_free(segments(path));
    lemma_segments_of_joined(without_repeats(segments(path)));
}

/// An entry that is placed under the package's directory, because its
/// rewritten path does not begin with the install root, is written to a path
/// in which no segment immediately repeats.
pub proof fn lemma_placed_entry_has_no_repeat(root: Seq<char>, name: Seq<char>, entry: Seq<char>)
    requires
        !root.is_prefix_of(rewritten(root, name, entry)),
    ensures
        has_no_repeat(segments(target_path(root, name, entry))),
{
    lemma_collapsed_has_no_repeat(install_dir(root, name) + seq!['/'] + rewritten(root, name, entry));
}

/// An entry under the wrapper directory is written to the same relative path
/// under the package's directory.
pub proof fn lemma_wrapped_entry_target(root: Seq<char>, name: Seq<char>, rest: Seq<char>)
    ensures
        target_path(root, name, wrapper_segment() + seq!['/'] + rest) == install_dir(root, name)
            + seq!['/'] + rest,
{
    let entry = wrapper_segment() + seq!['/'] + rest;
    assert((wrapper_segment() + seq!['/']).is_prefix_of(entry)) by {
        assert(entry.subrange(0, 8) =~= wrapper_segment() + seq!['/']);
    }
    assert(entry.skip(7) =~= seq!['/'] + rest);
    let path = install_dir(root, name) + entry.skip(7);
    assert(path =~= install_dir(root, name) + seq!['/'] + rest);
    assert(root.is_prefix_of(path)) by {
        assert(path.subrange(0, root.len() as int) =~= root);
    }
}

} // verus!
