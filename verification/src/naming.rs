//! What texts, numbers and paths come to.
use crate::domain;
use crate::domain::LocationView;
use crate::measurement;
use crate::paths;
use crate::text;
use vstd::prelude::*;

verus! {

/// The number that decimal digits stand for.
pub open spec fn number(digits: Seq<char>) -> int
    decreases digits.len(),
{
    if digits.len() == 0 {
        0
    } else {
        10 * number(digits.drop_last()) + (digits.last() as int - '0' as int)
    }
}

/// A number in decimal reads back as itself: it is made of digits, and none leads with a zero but zero.
pub proof fn law_decimal_reads_back(value: nat)
    ensures
        ({
            let digits = text::decimal(value);
            &&& digits.len() > 0
            &&& number(digits) == value
            &&& forall|i: int| 0 <= i < digits.len() ==> '0' <= #[trigger] digits[i] <= '9'
            &&& value > 0 ==> digits[0] != '0'
            &&& value == 0 ==> digits == seq!['0']
        }),
    decreases value,
{
    let digits = text::decimal(value);
    if value < 10 {
        assert(digits.drop_last() =~= Seq::<char>::empty());
        assert(number(digits.drop_last()) == 0);
        assert(digits.last() as int == '0' as int + value);
    } else {
        law_decimal_reads_back(value / 10);
        assert(digits.drop_last() =~= text::decimal(value / 10));
        assert(digits.last() as int == '0' as int + value % 10);
        assert(digits[0] == text::decimal(value / 10)[0]);
        assert forall|i: int| 0 <= i < digits.len() implies '0' <= #[trigger] digits[i] <= '9' by {
            if i < digits.len() - 1 {
                assert(digits[i] == text::decimal(value / 10)[i]);
            }
        }
    }
}

/// A negative number is told by a sign before its digits, and any other by its digits alone.
pub proof fn law_sign_leads_a_negative_number(value: int)
    ensures
        ({
            let told = text::signed_decimal(value);
            &&& value < 0 ==> told[0] == '-' && number(told.skip(1)) == -value
            &&& value >= 0 ==> told[0] != '-' && number(told) == value
        }),
{
    if value < 0 {
        law_decimal_reads_back((-value) as nat);
        assert(text::signed_decimal(value).skip(1) =~= text::decimal((-value) as nat));
    } else {
        law_decimal_reads_back(value as nat);
        assert('0' <= text::decimal(value as nat)[0]);
    }
}

/// The value of a lower-case hexadecimal digit.
pub open spec fn nibble(c: char) -> int {
    if '0' <= c <= '9' {
        c as int - '0' as int
    } else {
        c as int - 'a' as int + 10
    }
}

/// Bytes are written as two lower-case hexadecimal digits each, the higher one first.
pub proof fn law_hex_is_two_digits_a_byte(bytes: Seq<u8>, i: int)
    requires
        0 <= i < bytes.len(),
    ensures
        ({
            let digits = text::hex(bytes);
            let high = digits[2 * i];
            let low = digits[2 * i + 1];
            &&& digits.len() == 2 * bytes.len()
            &&& ('0' <= high <= '9') || ('a' <= high <= 'f')
            &&& ('0' <= low <= '9') || ('a' <= low <= 'f')
            &&& bytes[i] == 16 * nibble(high) + nibble(low)
        }),
{
    let digits = text::hex(bytes);
    assert((2 * i) % 2 == 0 && (2 * i) / 2 == i);
    assert((2 * i + 1) % 2 == 1 && (2 * i + 1) / 2 == i);
    assert(digits[2 * i] == text::hex_digit(bytes[i] as int / 16));
    assert(digits[2 * i + 1] == text::hex_digit(bytes[i] as int % 16));
}

proof fn lemma_trim_start_len(t: Seq<char>)
    ensures
        text::trim_start(t).len() <= t.len(),
        text::trim_start(t).len() == t.len() <==> t.len() == 0 || !text::white_space(t[0]),
        text::trim_start(t).len() == t.len() ==> text::trim_start(t) == t,
    decreases t.len(),
{
    if t.len() > 0 && text::white_space(t[0]) {
        lemma_trim_start_len(t.subrange(1, t.len() as int));
    }
}

proof fn lemma_trim_end_len(t: Seq<char>)
    ensures
        text::trim_end(t).len() <= t.len(),
        text::trim_end(t).len() == t.len() <==> t.len() == 0 || !text::white_space(t.last()),
        text::trim_end(t).len() == t.len() ==> text::trim_end(t) == t,
    decreases t.len(),
{
    if t.len() > 0 && text::white_space(t.last()) {
        lemma_trim_end_len(t.drop_last());
    }
}

/// A label is a text that holds something, with no white space at either end and no NUL in it.
pub proof fn law_label_is_trimmed(t: Seq<char>)
    ensures
        text::is_label(t) <==> t.len() > 0 && !text::white_space(t[0]) && !text::white_space(
            t[t.len() - 1],
        ) && forall|i: int| 0 <= i < t.len() ==> #[trigger] t[i] != '\0',
{
    lemma_trim_start_len(t);
    lemma_trim_end_len(text::trim_start(t));
    if t.contains('\0') {
        let i = choose|i: int| 0 <= i < t.len() && t[i] == '\0';
        assert(t[i] == '\0');
    }
    assert forall|i: int| 0 <= i < t.len() && !t.contains('\0') implies #[trigger] t[i] != '\0' by {
        if t[i] == '\0' {
            assert(t.contains('\0'));
        }
    }
}

/// White space is what the usual separators and blanks are, and no letter, digit or mark of ASCII.
pub proof fn law_white_space_is_blank(c: char)
    ensures
        c == ' ' || c == '\t' || c == '\n' || c == '\r' ==> text::white_space(c),
        '!' <= c <= '~' ==> !text::white_space(c),
        c == '\0' ==> !text::white_space(c),
{
}

/// The parts of a path are what its slashes and backslashes part: a text without any is one part, and two
/// paths with one between them have the parts of both.
pub proof fn law_path_parts_are_what_separators_part(a: Seq<char>, separator: char, b: Seq<char>)
    requires
        separator == '/' || separator == '\\',
    ensures
        domain::path_components(a.push(separator) + b) == domain::path_components(a)
            + domain::path_components(b),
        (forall|i: int| 0 <= i < b.len() ==> #[trigger] b[i] != '/' && b[i] != '\\')
            ==> domain::path_components(b) == seq![b],
    decreases b.len(),
{
    lemma_some_component(a);
    if b.len() == 0 {
        assert(a.push(separator) + b =~= a.push(separator));
        assert(a.push(separator).drop_last() =~= a);
        assert(domain::path_components(a.push(separator)) =~= domain::path_components(a)
            + domain::path_components(b));
        assert(b =~= Seq::<char>::empty());
        assert(domain::path_components(b) =~= seq![b]);
    } else {
        let front = b.drop_last();
        law_path_parts_are_what_separators_part(a, separator, front);
        lemma_some_component(front);
        let whole = a.push(separator) + b;
        assert(whole.drop_last() =~= a.push(separator) + front);
        assert(whole.last() == b.last());
        assert(domain::path_components(whole) =~= domain::path_components(a)
            + domain::path_components(b));
        if forall|i: int| 0 <= i < b.len() ==> #[trigger] b[i] != '/' && b[i] != '\\' {
            assert forall|i: int| 0 <= i < front.len() implies #[trigger] front[i] != '/'
                && front[i] != '\\' by {
                assert(b[i] != '/' && b[i] != '\\');
            }
            assert(b[b.len() - 1] == b.last());
            assert(front.push(b.last()) =~= b);
            assert(domain::path_components(b) =~= seq![b]);
        }
    }
}

proof fn lemma_some_component(path: Seq<char>)
    ensures
        domain::path_components(path).len() > 0,
    decreases path.len(),
{
    if path.len() > 0 {
        lemma_some_component(path.drop_last());
    }
}

/// A location is taken exactly where its role is a label without separators, and its path is relative, is
/// free of NUL, and has no part that is empty or leads back or nowhere.
pub proof fn law_location_is_below_its_root(location: LocationView)
    ensures
        ({
            let role = location.root_role;
            let path = location.source_relative_path;
            location.valid() <==> {
                &&& text::is_label(role)
                &&& forall|i: int|
                    0 <= i < role.len() ==> #[trigger] role[i] != '/' && role[i] != '\\'
                &&& path.len() > 0
                &&& path[0] != '/' && path[0] != '\\'
                &&& forall|i: int| 0 <= i < path.len() ==> #[trigger] path[i] != '\0'
                &&& forall|k: int|
                    0 <= k < domain::path_components(path).len() ==> ({
                        let part = #[trigger] domain::path_components(path)[k];
                        part.len() > 0 && part != seq!['.'] && part != seq!['.', '.']
                    })
            }
        }),
{
    let role = location.root_role;
    let path = location.source_relative_path;
    lemma_free_of(role, '/');
    lemma_free_of(role, '\\');
    lemma_free_of(path, '\0');
    if location.valid() {
        assert forall|k: int| 0 <= k < domain::path_components(path).len() implies ({
            let part = #[trigger] domain::path_components(path)[k];
            part.len() > 0 && part != seq!['.'] && part != seq!['.', '.']
        }) by {
            assert(domain::is_plain_component(domain::path_components(path)[k]));
        }
    }
}

proof fn lemma_free_of(t: Seq<char>, c: char)
    ensures
        !t.contains(c) <==> forall|i: int| 0 <= i < t.len() ==> #[trigger] t[i] != c,
{
    if t.contains(c) {
        let i = choose|i: int| 0 <= i < t.len() && t[i] == c;
        assert(t[i] == c);
    }
    assert forall|i: int| 0 <= i < t.len() && !t.contains(c) implies #[trigger] t[i] != c by {
        if t[i] == c {
            assert(t.contains(c));
        }
    }
}

/// A path that leads out of its root, or through an empty or a dot part, is refused wherever the part stands.
pub proof fn law_no_part_leads_out(before: Seq<char>, part: Seq<char>, after: Seq<char>, role: Seq<char>)
    requires
        part == Seq::<char>::empty() || part == seq!['.'] || part == seq!['.', '.'],
    ensures
        !(LocationView { root_role: role, source_relative_path: part }).valid(),
        !(LocationView {
            root_role: role,
            source_relative_path: part.push('/') + after,
        }).valid(),
        !(LocationView {
            root_role: role,
            source_relative_path: before.push('/') + part,
        }).valid(),
        !(LocationView {
            root_role: role,
            source_relative_path: before.push('/') + (part.push('/') + after),
        }).valid(),
{
    law_path_parts_are_what_separators_part(part, '/', part);
    law_path_parts_are_what_separators_part(part, '/', after);
    law_path_parts_are_what_separators_part(before, '/', part);
    law_path_parts_are_what_separators_part(before, '/', part.push('/') + after);
    assert(domain::path_components(part) == seq![part]);
    lemma_some_component(before);
    assert(!domain::is_plain_component(part));
    let first = part.push('/') + after;
    let last = before.push('/') + part;
    let inner = before.push('/') + first;
    assert(domain::path_components(part)[0] == part);
    assert(domain::path_components(first)[0] == part);
    let n = domain::path_components(before).len() as int;
    assert(domain::path_components(last)[n] == part);
    assert(domain::path_components(inner)[n] == part);
}

/// The segments of a path are what its slashes part.
pub proof fn law_segments_are_what_slashes_part(a: Seq<char>, b: Seq<char>)
    ensures
        paths::segments(a.push('/') + b) == paths::segments(a) + paths::segments(b),
        (forall|i: int| 0 <= i < b.len() ==> #[trigger] b[i] != '/') ==> paths::segments(b)
            == seq![b],
    decreases b.len(),
{
    lemma_some_segment(a);
    if b.len() == 0 {
        assert(a.push('/') + b =~= a.push('/'));
        assert(a.push('/').drop_last() =~= a);
        assert(paths::segments(a.push('/')) =~= paths::segments(a) + paths::segments(b));
        assert(b =~= Seq::<char>::empty());
        assert(paths::segments(b) =~= seq![b]);
    } else {
        let front = b.drop_last();
        law_segments_are_what_slashes_part(a, front);
        lemma_some_segment(front);
        let whole = a.push('/') + b;
        assert(whole.drop_last() =~= a.push('/') + front);
        assert(whole.last() == b.last());
        assert(paths::segments(whole) =~= paths::segments(a) + paths::segments(b));
        if forall|i: int| 0 <= i < b.len() ==> #[trigger] b[i] != '/' {
            assert forall|i: int| 0 <= i < front.len() implies #[trigger] front[i] != '/' by {
                assert(b[i] != '/');
            }
            assert(b[b.len() - 1] == b.last());
            assert(front.push(b.last()) =~= b);
            assert(paths::segments(b) =~= seq![b]);
        }
    }
}

proof fn lemma_some_segment(path: Seq<char>)
    ensures
        paths::segments(path).len() > 0,
    decreases path.len(),
{
    if path.len() > 0 {
        lemma_some_segment(path.drop_last());
    }
}

proof fn lemma_named(parts: Seq<Seq<char>>, part: Seq<char>)
    ensures
        paths::named(parts).contains(part) <==> parts.contains(part) && part.len() > 0 && part
            != "."@,
    decreases parts.len(),
{
    if parts.len() > 0 {
        let front = parts.drop_last();
        lemma_named(front, part);
        let named = paths::named(parts);
        let before = paths::named(front);
        if front.contains(part) {
            let k = choose|k: int| 0 <= k < front.len() && front[k] == part;
            assert(parts[k] == part);
        }
        if parts.contains(part) && !front.contains(part) {
            let k = choose|k: int| 0 <= k < parts.len() && parts[k] == part;
            if k < front.len() {
                assert(front[k] == part);
            }
            assert(parts.last() == part);
        }
        assert(parts[parts.len() - 1] == parts.last());
        if !(parts.last().len() == 0 || parts.last() == "."@) {
            assert(named == before.push(parts.last()));
            assert(named[before.len() as int] == parts.last());
            if before.contains(part) {
                let k = choose|k: int| 0 <= k < before.len() && before[k] == part;
                assert(named[k] == part);
            }
            if named.contains(part) && !before.contains(part) {
                let k = choose|k: int| 0 <= k < named.len() && named[k] == part;
                if k < before.len() {
                    assert(before[k] == part);
                }
            }
        }
    }
}

/// The normal parts of a path are its segments that name something; a path has them exactly where it is
/// relative, does not begin with a dot segment, and never leads back.
pub proof fn law_normal_parts_name_something(path: Seq<char>, part: Seq<char>)
    ensures
        ({
            let found = paths::normal_parts(path);
            &&& found is Some <==> !(path.len() > 0 && path[0] == '/') && paths::segments(path)[0]
                != "."@ && !paths::segments(path).contains(".."@)
            &&& found matches Some(parts) ==> (parts.contains(part) <==> paths::segments(
                path,
            ).contains(part) && part.len() > 0 && part != "."@)
        }),
{
    lemma_named(paths::segments(path), part);
}

/// A relative name below a root is the root and the name with one slash between them; an absolute name
/// stands for itself.
pub proof fn law_joined_path_is_below_its_root(root: Seq<char>, name: Seq<char>)
    ensures
        ({
            let whole = paths::joined(root, name);
            &&& name.len() > 0 && name[0] == '/' ==> whole == name
            &&& !(name.len() > 0 && name[0] == '/') ==> {
                &&& whole.take(root.len() as int) == root
                &&& whole.skip(whole.len() - name.len()) == name
                &&& root.len() > 0 && root.last() != '/' ==> whole.len() == root.len() + name.len()
                    + 1 && whole[root.len() as int] == '/'
                &&& root.len() == 0 || root.last() == '/' ==> whole.len() == root.len()
                    + name.len()
            }
        }),
{
    let whole = paths::joined(root, name);
    if !(name.len() > 0 && name[0] == '/') {
        assert(whole.take(root.len() as int) =~= root);
        assert(whole.skip(whole.len() - name.len()) =~= name);
    }
}

proof fn lemma_cut(directory: Seq<char>, name: Seq<char>)
    requires
        forall|i: int| 0 <= i < name.len() ==> #[trigger] name[i] != '/',
    ensures
        paths::after_last_slash(directory.push('/') + name) == directory.len() + 1,
    decreases name.len(),
{
    let whole = directory.push('/') + name;
    if name.len() == 0 {
        assert(whole.last() == '/');
    } else {
        let front = name.drop_last();
        assert forall|i: int| 0 <= i < front.len() implies #[trigger] front[i] != '/' by {
            assert(name[i] != '/');
        }
        lemma_cut(directory, front);
        assert(whole.drop_last() =~= directory.push('/') + front);
        assert(name[name.len() - 1] == whole.last());
    }
}

/// The file name of a path is what stands behind its last slash, and its parent is what stands before;
/// a slash, or a slash and a dot, at its end does not count.
pub proof fn law_file_name_is_behind_the_last_slash(directory: Seq<char>, name: Seq<char>)
    requires
        name.len() > 0,
        name != seq!['.'],
        name != seq!['.', '.'],
        forall|i: int| 0 <= i < name.len() ==> #[trigger] name[i] != '/',
    ensures
        ({
            let whole = directory.push('/') + name;
            &&& paths::file_name(whole) == Some(name)
            &&& paths::file_name(whole.push('/')) == Some(name)
            &&& directory.len() == 0 ==> paths::parent(whole) == Some(seq!['/'])
            &&& directory.len() > 0 ==> paths::parent(whole) == Some(paths::bare(directory))
            &&& directory.len() > 0 && directory.last() != '/' && directory.last() != '.'
                ==> paths::parent(whole) == Some(directory)
        }),
{
    let whole = directory.push('/') + name;
    lemma_cut(directory, name);
    let cut = directory.len() + 1;
    assert(whole.skip(cut as int) =~= name);
    lemma_cut(whole, Seq::empty());
    assert(whole.push('/') + Seq::<char>::empty() =~= whole.push('/'));
    let again = whole.push('/');
    assert(again.skip(again.len() as int) =~= Seq::<char>::empty());
    assert(again.take(again.len() - 1) =~= whole);
    assert(paths::file_name(whole) == Some(name));
    assert(paths::bare(whole) == whole);
    assert(whole.take(cut - 1) =~= directory);
    assert(whole.len() > 1);
    assert(whole != seq!['/']);
    if directory.len() > 0 && directory.last() != '/' && directory.last() != '.' {
        lemma_last_segment(directory);
        let end = paths::after_last_slash(directory);
        let last = directory.skip(end);
        assert(last.last() == directory.last());
    }
}

proof fn lemma_last_segment(path: Seq<char>)
    ensures
        0 <= paths::after_last_slash(path) <= path.len(),
        path.len() > 0 && path.last() != '/' ==> paths::after_last_slash(path) < path.len(),
    decreases path.len(),
{
    if path.len() > 0 && path.last() != '/' {
        lemma_last_segment(path.drop_last());
    }
}

/// A file of lines of JSON is told by the end of its name, which is not all of it.
pub proof fn law_json_lines_are_told_by_name(directory: Seq<char>, name: Seq<char>)
    requires
        name.len() > 0,
        name != seq!['.'],
        name != seq!['.', '.'],
        forall|i: int| 0 <= i < name.len() ==> #[trigger] name[i] != '/',
    ensures
        paths::is_jsonl(directory.push('/') + name) <==> name.len() > 6 && name.skip(
            name.len() - 6,
        ) == ".jsonl"@,
{
    law_file_name_is_behind_the_last_slash(directory, name);
    reveal_strlit(".jsonl");
    if name.len() > 6 {
        assert(name.skip(name.len() - 6) =~= name.subrange(name.len() - 6, name.len() as int));
    }
}

/// A time in seconds and microseconds comes to nanoseconds, where neither is negative and the
/// microseconds make no second.
pub proof fn law_time_comes_to_nanoseconds(seconds: i64, microseconds: i64)
    ensures
        ({
            let span = measurement::timeval_span(seconds, microseconds);
            &&& span is Some <==> seconds >= 0 && 0 <= microseconds < 1_000_000
            &&& span matches Some(nanoseconds) ==> {
                &&& nanoseconds / 1_000_000_000 == seconds
                &&& (nanoseconds % 1_000_000_000) / 1_000 == microseconds
                &&& nanoseconds % 1_000 == 0
            }
        }),
{
}

/// What was used between two readings is what the second is over the first, where both are known.
pub proof fn law_use_is_what_was_added(before: Option<nat>, after: Option<nat>)
    ensures
        ({
            let used = measurement::grown(before, after);
            &&& used is Some <==> before is Some && after is Some
            &&& used is Some && before->Some_0 <= after->Some_0 ==> before->Some_0 + used->Some_0
                == after->Some_0
            &&& used is Some && before->Some_0 > after->Some_0 ==> used->Some_0 == 0
        }),
{
}

/// Every byte that is read counts, in the order of the reads.
pub proof fn law_every_read_byte_counts(reads: Seq<Seq<u8>>, last: Seq<u8>)
    requires
        forall|i: int| 0 <= i < reads.len() ==> (#[trigger] reads[i]).len() > 0,
    ensures
        domain::bytes_read(reads.push(last)) == domain::bytes_read(reads) + last,
        domain::bytes_read(reads).len() <= u64::MAX ==> domain::revision_of(
            domain::bytes_read(reads),
        ).byte_length == domain::bytes_read(reads).len(),
    decreases reads.len(),
{
    let all = reads.push(last);
    if reads.len() == 0 {
        assert(all.subrange(1, 1) =~= Seq::<Seq<u8>>::empty());
        assert(all[0] == last);
        assert(domain::bytes_read(all.subrange(1, 1)) =~= Seq::<u8>::empty());
        assert(domain::bytes_read(all) =~= last);
        assert(domain::bytes_read(reads) =~= Seq::<u8>::empty());
    } else {
        let rest = reads.subrange(1, reads.len() as int);
        assert forall|i: int| 0 <= i < rest.len() implies (#[trigger] rest[i]).len() > 0 by {
            assert(reads[i + 1].len() > 0);
        }
        law_every_read_byte_counts(rest, last);
        assert(all.subrange(1, all.len() as int) =~= rest.push(last));
        assert(all[0] == reads[0]);
        assert(reads[0].len() > 0);
        assert(domain::bytes_read(all) =~= domain::bytes_read(reads) + last);
    }
}

} // verus!
