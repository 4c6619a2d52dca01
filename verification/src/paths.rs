//! Unix path texts: absolute paths, joining, and final components.
use vstd::prelude::*;

use crate::text;
use crate::text::{chars_of, concat2, concat3, ends_with, same_text, starts_with, text_of};

verus! {

/// A path that starts at the root.
pub open spec fn absolute(path: Seq<char>) -> bool {
    path.len() > 0 && path[0] == '/'
}

/// `name` below `root`; an absolute `name` stands for itself.
pub open spec fn joined(root: Seq<char>, name: Seq<char>) -> Seq<char> {
    if absolute(name) {
        name
    } else if root.len() == 0 || root.last() == '/' {
        root + name
    } else {
        root + seq!['/'] + name
    }
}

/// The position behind the last slash, or zero.
pub open spec fn after_last_slash(path: Seq<char>) -> int
    decreases path.len(),
{
    if path.len() == 0 {
        0
    } else if path.last() == '/' {
        path.len() as int
    } else {
        after_last_slash(path.drop_last())
    }
}

/// The final component of a path, unless it is the root, empty or a step to the parent. Trailing
/// slashes and `.` components do not count.
pub open spec fn file_name(path: Seq<char>) -> Option<Seq<char>>
    decreases path.len(),
    via file_name_decreases
{
    let cut = after_last_slash(path);
    let last = path.skip(cut);
    if last.len() == 0 || last == seq!['.'] {
        if cut == 0 {
            None
        } else {
            file_name(path.take(cut - 1))
        }
    } else if last == seq!['.', '.'] {
        None
    } else {
        Some(last)
    }
}

#[via_fn]
proof fn file_name_decreases(path: Seq<char>) {
    lemma_after_last_slash(path);
}

proof fn lemma_after_last_slash(path: Seq<char>)
    ensures
        0 <= after_last_slash(path) <= path.len(),
    decreases path.len(),
{
    if path.len() > 0 && path.last() != '/' {
        lemma_after_last_slash(path.drop_last());
    }
}

/// A path without trailing slashes and `.` components; the root stays.
pub open spec fn bare(path: Seq<char>) -> Seq<char>
    decreases path.len(),
    via bare_decreases
{
    let cut = after_last_slash(path);
    let last = path.skip(cut);
    if cut > 0 && (last.len() == 0 || last == seq!['.']) {
        if cut == 1 {
            seq!['/']
        } else {
            bare(path.take(cut - 1))
        }
    } else {
        path
    }
}

#[via_fn]
proof fn bare_decreases(path: Seq<char>) {
    lemma_after_last_slash(path);
}

/// The path of the directory that holds an absolute path's final component. The root has none.
pub open spec fn parent(path: Seq<char>) -> Option<Seq<char>> {
    let whole = bare(path);
    let cut = after_last_slash(whole);
    if whole == seq!['/'] || cut == 0 {
        None
    } else if cut == 1 {
        Some(seq!['/'])
    } else {
        Some(bare(whole.take(cut - 1)))
    }
}

/// Whether the final component has the extension `jsonl`.
pub open spec fn is_jsonl(path: Seq<char>) -> bool {
    match file_name(path) {
        Some(name) => name.len() > ".jsonl"@.len() && text::occurs_at(
            name,
            ".jsonl"@,
            name.len() - ".jsonl"@.len(),
        ),
        None => false,
    }
}

/// Whether a path starts at the root.
pub fn is_absolute(path: &str) -> (result: bool)
    ensures
        result == absolute(path@),
{
    proof {
        reveal_strlit("/");
        assert("/"@.len() == 1);
        if path@.len() > 0 {
            assert(path@.subrange(0, 1) =~= seq![path@[0]]);
            assert("/"@ =~= seq!['/']);
            assert(seq![path@[0]][0] == path@[0]);
            assert(seq!['/'][0] == '/');
        }
    }
    starts_with(path, "/")
}

/// `name` below `root`; an absolute `name` stands for itself.
pub fn join_path(root: &str, name: &str) -> (result: String)
    ensures
        result@ == joined(root@, name@),
{
    if is_absolute(name) {
        return name.to_owned();
    }
    proof {
        reveal_strlit("/");
        assert("/"@ =~= seq!['/']);
        if root@.len() > 0 {
            assert(root@.subrange(root@.len() - 1, root@.len() as int) =~= seq![root@.last()]);
            assert(seq![root@.last()][0] == root@.last());
            assert(seq!['/'][0] == '/');
        }
    }
    if root.is_empty() || ends_with(root, "/") {
        concat2(root, name)
    } else {
        concat3(root, "/", name)
    }
}

/// The position behind the last slash of a path's first `end` characters.
fn behind_last_slash(chars: &Vec<char>, end: usize) -> (result: usize)
    requires
        end <= chars@.len(),
    ensures
        result <= end,
        result == after_last_slash(chars@.take(end as int)),
        result > 0 ==> chars@[result - 1] == '/',
{
    let ghost rest = chars@.take(end as int);
    let mut cut: usize = end;
    assert(rest.take(end as int) =~= rest);
    while cut > 0 && chars[cut - 1] != '/'
        invariant
            cut <= end <= chars@.len(),
            rest == chars@.take(end as int),
            after_last_slash(rest) == after_last_slash(rest.take(cut as int)),
        decreases cut,
    {
        proof {
            assert(rest.take(cut as int).drop_last() =~= rest.take(cut - 1));
            assert(rest.take(cut as int).last() == chars@[cut - 1]);
        }
        cut -= 1;
    }
    proof {
        if cut > 0 {
            assert(rest.take(cut as int).last() == chars@[cut - 1]);
        }
    }
    cut
}

/// How many of a path's first `end` characters stay without trailing slashes and `.` components.
fn bare_end(chars: &Vec<char>, from: usize) -> (result: usize)
    requires
        from <= chars@.len(),
    ensures
        result <= from,
        chars@.take(result as int) == bare(chars@.take(from as int)),
{
    let mut end: usize = from;
    loop
        invariant
            end <= from <= chars@.len(),
            bare(chars@.take(from as int)) == bare(chars@.take(end as int)),
        decreases end,
    {
        let ghost rest = chars@.take(end as int);
        let cut: usize = behind_last_slash(chars, end);
        proof {
            assert(rest.skip(cut as int) =~= chars@.subrange(cut as int, end as int));
            assert(seq!['.'][0] == '.');
            if end == cut + 1 {
                assert(rest.skip(cut as int)[0] == chars@[cut as int]);
                if chars@[cut as int] == '.' {
                    assert(rest.skip(cut as int) =~= seq!['.']);
                }
            }
        }
        if cut > 0 && (cut == end || (end == cut + 1 && chars[cut] == '.')) {
            if cut == 1 {
                assert(chars@.take(1) =~= seq!['/']);
                return 1;
            }
            assert(rest.take(cut - 1) =~= chars@.take(cut - 1));
            end = cut - 1;
        } else {
            return end;
        }
    }
}

/// The path of the directory that holds an absolute path's final component.
pub fn parent_directory(path: &str) -> (result: Option<String>)
    ensures
        text::view_option(result) == parent(path@),
{
    let chars = chars_of(path);
    assert(chars@.take(chars@.len() as int) =~= path@);
    let end: usize = bare_end(&chars, chars.len());
    let cut: usize = behind_last_slash(&chars, end);
    proof {
        assert(seq!['/'].len() == 1 && seq!['/'][0] == '/');
        if end == 1 && cut == 1 {
            assert(chars@.take(1) =~= seq!['/']);
        }
        if chars@.take(end as int) == seq!['/'] {
            assert(chars@.take(end as int).drop_last() =~= Seq::empty());
            assert(chars@.take(end as int).last() == '/');
        }
    }
    if cut == 0 || (end == 1 && cut == 1) {
        return None;
    }
    if cut == 1 {
        assert(chars@.subrange(0, 1) =~= seq!['/']);
        return Some(text_of(&chars, 0, 1));
    }
    let stop: usize = bare_end(&chars, cut - 1);
    proof {
        assert(chars@.take(end as int).take(cut - 1) =~= chars@.take(cut - 1));
        assert(chars@.subrange(0, stop as int) =~= chars@.take(stop as int));
    }
    Some(text_of(&chars, 0, stop))
}

/// The final component of a path.
pub fn final_component(path: &str) -> (result: Option<String>)
    ensures
        text::view_option(result) == file_name(path@),
{
    let chars = chars_of(path);
    let mut end: usize = chars.len();
    assert(chars@.take(end as int) =~= path@);
    loop
        invariant
            end <= chars@.len(),
            chars@ == path@,
            file_name(path@) == file_name(chars@.take(end as int)),
        decreases end,
    {
        let ghost rest = chars@.take(end as int);
        let cut: usize = behind_last_slash(&chars, end);
        proof {
            assert(rest.skip(cut as int) =~= chars@.subrange(cut as int, end as int));
            reveal_strlit(".");
            reveal_strlit("..");
            assert("."@ =~= seq!['.']);
            assert(".."@ =~= seq!['.', '.']);
        }
        let last = text_of(&chars, cut, end);
        if cut == end || same_text(last.as_str(), ".") {
            if cut == 0 {
                return None;
            }
            assert(rest.take(cut - 1) =~= chars@.take(cut - 1));
            end = cut - 1;
        } else if same_text(last.as_str(), "..") {
            return None;
        } else {
            return Some(last);
        }
    }
}

/// Whether the final component has the extension `jsonl`.
pub fn has_jsonl_extension(path: &str) -> (result: bool)
    ensures
        result == is_jsonl(path@),
{
    match final_component(path) {
        Some(name) => {
            proof {
                reveal_strlit(".jsonl");
                assert(".jsonl"@.len() == 6);
                if name@.len() == 6 {
                    assert(name@.subrange(0, 6) =~= name@);
                }
            }
            !same_text(name.as_str(), ".jsonl") && ends_with(name.as_str(), ".jsonl")
        },
        None => false,
    }
}

/// The parts of a path between slashes.
pub open spec fn segments(path: Seq<char>) -> Seq<Seq<char>>
    decreases path.len(),
{
    if path.len() == 0 {
        seq![Seq::empty()]
    } else {
        let before = segments(path.drop_last());
        if path.last() == '/' {
            before.push(Seq::empty())
        } else {
            before.drop_last().push(before.last().push(path.last()))
        }
    }
}

/// The segments that are neither empty nor `.`, in order.
pub open spec fn named(parts: Seq<Seq<char>>) -> Seq<Seq<char>>
    decreases parts.len(),
{
    if parts.len() == 0 {
        Seq::empty()
    } else if parts.last().len() == 0 || parts.last() == "."@ {
        named(parts.drop_last())
    } else {
        named(parts.drop_last()).push(parts.last())
    }
}

/// The components of a path that starts neither at the root nor at `.` and never steps to a
/// parent.
pub open spec fn normal_parts(path: Seq<char>) -> Option<Seq<Seq<char>>> {
    if absolute(path) || segments(path)[0] == "."@ || segments(path).contains(".."@) {
        None
    } else {
        Some(named(segments(path)))
    }
}

fn split_segments(path: &str) -> (result: Vec<String>)
    ensures
        text::views(result@) == segments(path@),
        result@.len() > 0,
{
    let chars = chars_of(path);
    let mut parts: Vec<String> = Vec::new();
    let mut from: usize = 0;
    let mut i: usize = 0;
    proof {
        assert(chars@.take(0) =~= Seq::empty());
        assert(chars@.subrange(0, 0) =~= Seq::empty());
        assert(text::views(parts@).push(Seq::empty()) =~= seq![Seq::<char>::empty()]);
    }
    while i < chars.len()
        invariant
            from <= i <= chars@.len(),
            segments(chars@.take(i as int)) == text::views(parts@).push(
                chars@.subrange(from as int, i as int),
            ),
        decreases chars@.len() - i,
    {
        let ghost done = text::views(parts@);
        let ghost open_part = chars@.subrange(from as int, i as int);
        proof {
            assert(chars@.take(i + 1).drop_last() =~= chars@.take(i as int));
            assert(chars@.take(i + 1).last() == chars@[i as int]);
        }
        if chars[i] == '/' {
            let part = text_of(&chars, from, i);
            proof {
                text::lemma_views_push(parts@, part);
            }
            parts.push(part);
            from = i + 1;
            assert(chars@.subrange(i + 1, i + 1) =~= Seq::empty());
        } else {
            assert(chars@.subrange(from as int, i + 1) =~= open_part.push(chars@[i as int]));
            assert(done.push(open_part).drop_last() =~= done);
        }
        i += 1;
    }
    let last = text_of(&chars, from, chars.len());
    proof {
        text::lemma_views_push(parts@, last);
        assert(chars@.take(chars@.len() as int) =~= chars@);
    }
    parts.push(last);
    parts
}

/// The components of a path that starts neither at the root nor at `.` and never steps to a
/// parent.
pub fn normal_components(path: &str) -> (result: Option<Vec<String>>)
    ensures
        match result {
            Some(parts) => normal_parts(path@) == Some(text::views(parts@)),
            None => normal_parts(path@) is None,
        },
{
    let parts = split_segments(path);
    let ghost all = text::views(parts@);
    assert(all[0] == parts@[0]@);
    if is_absolute(path) || same_text(parts[0].as_str(), ".") {
        return None;
    }
    let mut kept: Vec<String> = Vec::new();
    let mut i: usize = 0;
    assert(text::views(kept@) =~= named(all.take(0)));
    while i < parts.len()
        invariant
            0 <= i <= parts@.len(),
            all == text::views(parts@),
            all == segments(path@),
            text::views(kept@) == named(all.take(i as int)),
            forall|j: int| 0 <= j < i ==> #[trigger] all[j] != ".."@,
        decreases parts@.len() - i,
    {
        proof {
            assert(all.take(i + 1).drop_last() =~= all.take(i as int));
            assert(all.take(i + 1).last() == parts@[i as int]@);
            assert(all[i as int] == parts@[i as int]@);
        }
        if same_text(parts[i].as_str(), "..") {
            assert(all.contains(".."@));
            return None;
        }
        if !parts[i].as_str().is_empty() && !same_text(parts[i].as_str(), ".") {
            let part: String = parts[i].clone();
            proof {
                text::lemma_views_push(kept@, part);
            }
            kept.push(part);
        }
        i += 1;
    }
    assert(all.take(parts@.len() as int) =~= all);
    Some(kept)
}

} // verus!
