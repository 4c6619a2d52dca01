//! Character-level text operations and the specifications the rest of the crate states its
//! contracts with.
use vstd::prelude::*;
use vstd::utf8::*;

verus! {

/// `String::push`: appends one character.
pub assume_specification[ String::push ](target: &mut String, c: char)
    ensures
        final(target)@ == old(target)@.push(c),
;

/// The Unicode White_Space property.
pub open spec fn white_space(c: char) -> bool {
    let v = c as u32;
    ||| 0x9 <= v <= 0xd
    ||| v == 0x20
    ||| v == 0x85
    ||| v == 0xa0
    ||| v == 0x1680
    ||| 0x2000 <= v <= 0x200a
    ||| v == 0x2028
    ||| v == 0x2029
    ||| v == 0x202f
    ||| v == 0x205f
    ||| v == 0x3000
}

/// `text` without its leading white space.
pub open spec fn trim_start(text: Seq<char>) -> Seq<char>
    decreases text.len(),
{
    if text.len() > 0 && white_space(text[0]) {
        trim_start(text.subrange(1, text.len() as int))
    } else {
        text
    }
}

/// `text` without its trailing white space.
pub open spec fn trim_end(text: Seq<char>) -> Seq<char>
    decreases text.len(),
{
    if text.len() > 0 && white_space(text.last()) {
        trim_end(text.drop_last())
    } else {
        text
    }
}

/// `text` without white space at either end.
pub open spec fn trim(text: Seq<char>) -> Seq<char> {
    trim_end(trim_start(text))
}

/// A non-empty text with no white space at either end and no NUL character.
pub open spec fn is_label(text: Seq<char>) -> bool {
    &&& text.len() > 0
    &&& trim(text) == text
    &&& !text.contains('\0')
}

/// Whether `part` stands in `text` at position `at`.
pub open spec fn occurs_at(text: Seq<char>, part: Seq<char>, at: int) -> bool {
    &&& 0 <= at
    &&& at + part.len() <= text.len()
    &&& text.subrange(at, at + part.len()) == part
}

/// Whether `part` stands somewhere in `text`.
pub open spec fn occurs(text: Seq<char>, part: Seq<char>) -> bool {
    exists|at: int| occurs_at(text, part, at)
}

/// `text` without the characters `c` at its end.
pub open spec fn strip_end(text: Seq<char>, c: char) -> Seq<char>
    decreases text.len(),
{
    if text.len() > 0 && text.last() == c {
        strip_end(text.drop_last(), c)
    } else {
        text
    }
}

/// `text` without the characters `c` at its start.
pub open spec fn strip_start(text: Seq<char>, c: char) -> Seq<char>
    decreases text.len(),
{
    if text.len() > 0 && text[0] == c {
        strip_start(text.subrange(1, text.len() as int), c)
    } else {
        text
    }
}

/// The first position from `from` on at which `part` stands in `text`.
pub open spec fn first_from(text: Seq<char>, part: Seq<char>, from: int) -> Option<int>
    decreases text.len() + 1 - from,
{
    if from < 0 || from + part.len() > text.len() {
        None
    } else if occurs_at(text, part, from) {
        Some(from)
    } else {
        first_from(text, part, from + 1)
    }
}

/// Whether `a` comes before `b` in the order of their characters.
pub open spec fn text_before(a: Seq<char>, b: Seq<char>) -> bool
    decreases a.len(),
{
    if b.len() == 0 {
        false
    } else if a.len() == 0 {
        true
    } else if a[0] != b[0] {
        (a[0] as u32) < (b[0] as u32)
    } else {
        text_before(a.skip(1), b.skip(1))
    }
}

/// The decimal digit `value`.
pub open spec fn digit(value: int) -> char {
    (('0' as u32) + value) as char
}

/// `value` in decimal digits, without leading zeros.
pub open spec fn decimal(value: nat) -> Seq<char>
    decreases value,
{
    if value < 10 {
        seq![digit(value as int)]
    } else {
        decimal(value / 10).push(digit((value % 10) as int))
    }
}

/// `value` in decimal digits, with a leading minus sign where it is negative.
pub open spec fn signed_decimal(value: int) -> Seq<char> {
    if value < 0 {
        seq!['-'] + decimal((-value) as nat)
    } else {
        decimal(value as nat)
    }
}

/// The lower-case hexadecimal digit `value`.
pub open spec fn hex_digit(value: int) -> char {
    if value < 10 {
        (('0' as u32) + value) as char
    } else {
        (('a' as u32) + (value - 10)) as char
    }
}

/// Two lower-case hexadecimal digits for each byte, the high one first.
pub open spec fn hex(bytes: Seq<u8>) -> Seq<char> {
    Seq::new(
        2 * bytes.len(),
        |i: int|
            if i % 2 == 0 {
                hex_digit(bytes[i / 2] as int / 16)
            } else {
                hex_digit(bytes[i / 2] as int % 16)
            },
    )
}

/// The parts in order, with `separator` between each two.
pub open spec fn join(parts: Seq<Seq<char>>, separator: Seq<char>) -> Seq<char>
    decreases parts.len(),
{
    if parts.len() == 0 {
        Seq::empty()
    } else if parts.len() == 1 {
        parts[0]
    } else {
        join(parts.drop_last(), separator) + separator + parts.last()
    }
}

/// The views of a sequence of viewed values.
pub open spec fn views<T: View>(items: Seq<T>) -> Seq<T::V> {
    items.map_values(|item: T| item@)
}

/// The view of an optional value.
pub open spec fn view_option<T: View>(item: Option<T>) -> Option<T::V> {
    match item {
        Some(value) => Some(value@),
        None => None,
    }
}

pub proof fn lemma_views_push<T: View>(items: Seq<T>, item: T)
    ensures
        views(items.push(item)) == views(items).push(item@),
{
    assert(views(items.push(item)) =~= views(items).push(item@));
}

pub proof fn lemma_views_update<T: View>(items: Seq<T>, at: int, item: T)
    requires
        0 <= at < items.len(),
    ensures
        views(items.update(at, item)) == views(items).update(at, item@),
{
    assert(views(items.update(at, item)) =~= views(items).update(at, item@));
}

/// A text has no white space at its ends exactly where neither end character is white space.
pub proof fn lemma_trimmed(text: Seq<char>)
    ensures
        trim(text) == text <==> (text.len() == 0 || (!white_space(text[0]) && !white_space(
            text.last(),
        ))),
{
    lemma_trim_start_len(text);
    lemma_trim_end_len(trim_start(text));
}

pub proof fn lemma_trim_start_len(text: Seq<char>)
    ensures
        trim_start(text).len() <= text.len(),
        trim_start(text).len() == text.len() ==> trim_start(text) == text,
        text.len() > 0 && white_space(text[0]) ==> trim_start(text).len() < text.len(),
    decreases text.len(),
{
    if text.len() > 0 && white_space(text[0]) {
        lemma_trim_start_len(text.subrange(1, text.len() as int));
    }
}

pub proof fn lemma_trim_end_len(text: Seq<char>)
    ensures
        trim_end(text).len() <= text.len(),
        trim_end(text).len() == text.len() ==> trim_end(text) == text,
        text.len() > 0 && white_space(text.last()) ==> trim_end(text).len() < text.len(),
    decreases text.len(),
{
    if text.len() > 0 && white_space(text.last()) {
        lemma_trim_end_len(text.drop_last());
    }
}

/// The text that `Debug` of `str` writes for `text`: in quotes, with escapes.
pub uninterp spec fn debug_form(text: Seq<char>) -> Seq<char>;

/// `Debug` of `str`, through `format!`. Which characters it escapes is named, not described.
#[verifier::external_body]
pub(crate) fn debug_text(text: &str) -> (result: String)
    ensures
        result@ == debug_form(text@),
{
    format!("{text:?}")
}

/// `std::str::from_utf8`: a text exactly where the bytes are UTF-8, and that text.
#[verifier::external_body]
pub(crate) fn outside_utf8(bytes: &[u8]) -> (result: Option<String>)
    ensures
        result is Some == valid_utf8(bytes@),
        result is Some ==> result->Some_0@ == decode_utf8(bytes@),
{
    std::str::from_utf8(bytes).ok().map(|text| text.to_owned())
}

/// Whether `c` has the Unicode White_Space property.
pub fn is_white_space(c: char) -> (result: bool)
    ensures
        result == white_space(c),
{
    let v: u32 = c as u32;
    (0x9 <= v && v <= 0xd) || v == 0x20 || v == 0x85 || v == 0xa0 || v == 0x1680 || (0x2000 <= v
        && v <= 0x200a) || v == 0x2028 || v == 0x2029 || v == 0x202f || v == 0x205f || v == 0x3000
}

/// The characters of `text`.
pub fn chars_of(text: &str) -> (result: Vec<char>)
    ensures
        result@ == text@,
{
    let mut result: Vec<char> = Vec::new();
    for c in iter: text.chars()
        invariant
            iter.seq() == text@,
            result@ == text@.take(iter.index()),
    {
        assert(text@.take(iter.index() + 1) =~= text@.take(iter.index()).push(c));
        result.push(c);
    }
    assert(text@.take(text@.len() as int) =~= text@);
    result
}

/// The text made of `chars` from `from` up to `to`.
pub fn text_of(chars: &Vec<char>, from: usize, to: usize) -> (result: String)
    requires
        from <= to <= chars@.len(),
    ensures
        result@ == chars@.subrange(from as int, to as int),
{
    let mut result: String = String::new();
    let mut i: usize = from;
    while i < to
        invariant
            from <= i <= to <= chars@.len(),
            result@ == chars@.subrange(from as int, i as int),
        decreases to - i,
    {
        assert(chars@.subrange(from as int, i + 1) =~= chars@.subrange(from as int, i as int).push(
            chars@[i as int],
        ));
        result.push(chars[i]);
        i += 1;
    }
    result
}

/// Whether two texts hold the same characters.
pub fn same_text(a: &str, b: &str) -> (result: bool)
    ensures
        result == (a@ == b@),
{
    let x = a.as_bytes();
    let y = b.as_bytes();
    proof {
        encode_utf8_decode_utf8(a@);
        encode_utf8_decode_utf8(b@);
    }
    if x.len() != y.len() {
        return false;
    }
    let mut i: usize = 0;
    while i < x.len()
        invariant
            0 <= i <= x@.len(),
            x@.len() == y@.len(),
            x@ == encode_utf8(a@),
            y@ == encode_utf8(b@),
            forall|j: int| 0 <= j < i ==> x@[j] == y@[j],
        decreases x@.len() - i,
    {
        if x[i] != y[i] {
            return false;
        }
        i += 1;
    }
    assert(x@ =~= y@);
    true
}

/// Whether `a` comes before `b` in the order of their characters.
pub fn comes_before(a: &str, b: &str) -> (result: bool)
    ensures
        result == text_before(a@, b@),
{
    let x = chars_of(a);
    let y = chars_of(b);
    let mut i: usize = 0;
    assert(a@.skip(0) =~= a@ && b@.skip(0) =~= b@);
    while i < x.len() && i < y.len()
        invariant
            0 <= i <= x@.len(),
            i <= y@.len(),
            x@ == a@,
            y@ == b@,
            text_before(a@, b@) == text_before(a@.skip(i as int), b@.skip(i as int)),
        decreases x@.len() - i,
    {
        proof {
            assert(a@.skip(i as int)[0] == x@[i as int] && b@.skip(i as int)[0] == y@[i as int]);
            assert(a@.skip(i as int).skip(1) =~= a@.skip(i + 1));
            assert(b@.skip(i as int).skip(1) =~= b@.skip(i + 1));
        }
        if x[i] != y[i] {
            return (x[i] as u32) < (y[i] as u32);
        }
        i += 1;
    }
    i < y.len()
}

/// Whether `text` holds the character `c`.
pub fn contains_char(text: &str, c: char) -> (result: bool)
    ensures
        result == text@.contains(c),
{
    let chars = chars_of(text);
    let mut i: usize = 0;
    while i < chars.len()
        invariant
            0 <= i <= chars@.len(),
            chars@ == text@,
            forall|j: int| 0 <= j < i ==> chars@[j] != c,
        decreases chars@.len() - i,
    {
        if chars[i] == c {
            return true;
        }
        i += 1;
    }
    false
}

/// The bounds between which `chars` has no white space at either end.
pub fn trim_bounds(chars: &Vec<char>) -> (result: (usize, usize))
    ensures
        result.0 <= result.1 <= chars@.len(),
        chars@.subrange(result.0 as int, result.1 as int) == trim(chars@),
        chars@.subrange(result.0 as int, chars@.len() as int) == trim_start(chars@),
{
    let mut from: usize = 0;
    assert(chars@.subrange(0, chars@.len() as int) =~= chars@);
    while from < chars.len() && is_white_space(chars[from])
        invariant
            from <= chars@.len(),
            trim_start(chars@) == trim_start(chars@.subrange(from as int, chars@.len() as int)),
        decreases chars@.len() - from,
    {
        proof {
            let rest = chars@.subrange(from as int, chars@.len() as int);
            assert(rest.subrange(1, rest.len() as int) =~= chars@.subrange(
                from + 1,
                chars@.len() as int,
            ));
        }
        from += 1;
    }
    let mut to: usize = chars.len();
    proof {
        let rest = chars@.subrange(from as int, chars@.len() as int);
        if rest.len() > 0 {
            assert(rest[0] == chars@[from as int]);
        }
    }
    while from < to && is_white_space(chars[to - 1])
        invariant
            from <= to <= chars@.len(),
            trim(chars@) == trim_end(chars@.subrange(from as int, to as int)),
        decreases to - from,
    {
        proof {
            let rest = chars@.subrange(from as int, to as int);
            assert(rest.last() == chars@[to - 1]);
            assert(rest.drop_last() =~= chars@.subrange(from as int, to - 1));
        }
        to -= 1;
    }
    proof {
        let rest = chars@.subrange(from as int, to as int);
        if rest.len() > 0 {
            assert(rest.last() == chars@[to - 1]);
        }
    }
    (from, to)
}

/// `text` without white space at either end.
pub fn trimmed(text: &str) -> (result: String)
    ensures
        result@ == trim(text@),
{
    let chars = chars_of(text);
    let bounds = trim_bounds(&chars);
    text_of(&chars, bounds.0, bounds.1)
}

/// The position behind which `chars` up to `to` holds nothing but `c`.
pub fn end_without(chars: &Vec<char>, from: usize, to: usize, c: char) -> (result: usize)
    requires
        from <= to <= chars@.len(),
    ensures
        from <= result <= to,
        chars@.subrange(from as int, result as int) == strip_end(
            chars@.subrange(from as int, to as int),
            c,
        ),
{
    let mut end: usize = to;
    while from < end && chars[end - 1] == c
        invariant
            from <= end <= to <= chars@.len(),
            strip_end(chars@.subrange(from as int, to as int), c) == strip_end(
                chars@.subrange(from as int, end as int),
                c,
            ),
        decreases end,
    {
        proof {
            let rest = chars@.subrange(from as int, end as int);
            assert(rest.last() == chars@[end - 1]);
            assert(rest.drop_last() =~= chars@.subrange(from as int, end - 1));
        }
        end -= 1;
    }
    proof {
        let rest = chars@.subrange(from as int, end as int);
        if rest.len() > 0 {
            assert(rest.last() == chars@[end - 1]);
        }
    }
    end
}

/// The position before which `chars` holds nothing but `c`.
pub fn start_without(chars: &Vec<char>, c: char) -> (result: usize)
    ensures
        result <= chars@.len(),
        chars@.subrange(result as int, chars@.len() as int) == strip_start(chars@, c),
{
    let mut start: usize = 0;
    assert(chars@.subrange(0, chars@.len() as int) =~= chars@);
    while start < chars.len() && chars[start] == c
        invariant
            start <= chars@.len(),
            strip_start(chars@, c) == strip_start(
                chars@.subrange(start as int, chars@.len() as int),
                c,
            ),
        decreases chars@.len() - start,
    {
        proof {
            let rest = chars@.subrange(start as int, chars@.len() as int);
            assert(rest[0] == chars@[start as int]);
            assert(rest.subrange(1, rest.len() as int) =~= chars@.subrange(
                start + 1,
                chars@.len() as int,
            ));
        }
        start += 1;
    }
    proof {
        let rest = chars@.subrange(start as int, chars@.len() as int);
        if rest.len() > 0 {
            assert(rest[0] == chars@[start as int]);
        }
    }
    start
}

/// `text` without the characters `c` at its end.
pub fn without_end(text: &str, c: char) -> (result: String)
    ensures
        result@ == strip_end(text@, c),
{
    let chars = chars_of(text);
    let end: usize = end_without(&chars, 0, chars.len(), c);
    assert(chars@.subrange(0, chars@.len() as int) =~= text@);
    text_of(&chars, 0, end)
}

/// Whether nothing but white space stands in `text`.
pub fn is_blank(text: &str) -> (result: bool)
    ensures
        result == (trim(text@).len() == 0),
{
    let chars = chars_of(text);
    let bounds = trim_bounds(&chars);
    bounds.0 == bounds.1
}

/// Whether `text` has no white space at either end.
pub fn is_trimmed(text: &str) -> (result: bool)
    ensures
        result == (trim(text@) == text@),
{
    let chars = chars_of(text);
    proof {
        lemma_trimmed(text@);
    }
    chars.len() == 0 || (!is_white_space(chars[0]) && !is_white_space(chars[chars.len() - 1]))
}

/// Whether `text` is non-empty, trimmed and free of NUL characters.
pub fn label_ok(text: &str) -> (result: bool)
    ensures
        result == is_label(text@),
{
    !text.is_empty() && is_trimmed(text) && !contains_char(text, '\0')
}

/// Whether `part` stands in `chars` at `at`.
fn matches_at(chars: &Vec<char>, part: &Vec<char>, at: usize) -> (result: bool)
    requires
        at + part@.len() <= chars@.len(),
    ensures
        result == occurs_at(chars@, part@, at as int),
{
    let total: usize = chars.len();
    let mut i: usize = 0;
    while i < part.len()
        invariant
            0 <= i <= part@.len(),
            at + part@.len() <= chars@.len(),
            total == chars@.len(),
            forall|j: int| 0 <= j < i ==> chars@[at + j] == part@[j],
        decreases part@.len() - i,
    {
        if chars[at + i] != part[i] {
            assert(chars@.subrange(at as int, at + part@.len())[i as int] == chars@[at + i]);
            return false;
        }
        i += 1;
    }
    assert(chars@.subrange(at as int, at + part@.len()) =~= part@);
    true
}

/// The first position from `from` on at which `part` stands in `chars`.
pub fn find_from(chars: &Vec<char>, part: &Vec<char>, from: usize) -> (result: Option<usize>)
    requires
        from <= chars@.len(),
    ensures
        match result {
            Some(at) => {
                &&& from <= at
                &&& occurs_at(chars@, part@, at as int)
                &&& forall|j: int| from <= j < at ==> !occurs_at(chars@, part@, j)
            },
            None => forall|j: int| from <= j ==> !occurs_at(chars@, part@, j),
        },
        (match result {
            Some(at) => Some(at as int),
            None => None,
        }) == first_from(chars@, part@, from as int),
{
    let result = search_from(chars, part, from);
    proof {
        let end = match result {
            Some(at) => at as int,
            None => chars@.len() as int,
        };
        lemma_first_from(chars@, part@, from as int, end);
        assert(first_from(chars@, part@, (chars@.len() + 1) as int) is None);
        if result is None {
            assert(!occurs_at(chars@, part@, chars@.len() as int));
        }
    }
    result
}

/// Where `part` stands nowhere between `from` and `to`, searching may begin at `to`.
proof fn lemma_first_from(text: Seq<char>, part: Seq<char>, from: int, to: int)
    requires
        0 <= from <= to <= text.len(),
        forall|j: int| from <= j < to ==> !occurs_at(text, part, j),
    ensures
        first_from(text, part, from) == first_from(text, part, to),
    decreases to - from,
{
    if from < to {
        lemma_first_from(text, part, from + 1, to);
        assert(!occurs_at(text, part, from));
    }
}

fn search_from(chars: &Vec<char>, part: &Vec<char>, from: usize) -> (result: Option<usize>)
    requires
        from <= chars@.len(),
    ensures
        match result {
            Some(at) => {
                &&& from <= at
                &&& occurs_at(chars@, part@, at as int)
                &&& forall|j: int| from <= j < at ==> !occurs_at(chars@, part@, j)
            },
            None => forall|j: int| from <= j ==> !occurs_at(chars@, part@, j),
        },
{
    if part.len() > chars.len() || from > chars.len() - part.len() {
        return None;
    }
    let last: usize = chars.len() - part.len();
    let mut at: usize = from;
    while at < last
        invariant
            from <= at <= last,
            last == chars@.len() - part@.len(),
            forall|j: int| from <= j < at ==> !occurs_at(chars@, part@, j),
        decreases last - at,
    {
        if matches_at(chars, part, at) {
            return Some(at);
        }
        at += 1;
    }
    if matches_at(chars, part, at) {
        Some(at)
    } else {
        None
    }
}

/// Whether `part` stands somewhere in `text`.
pub fn contains_text(text: &str, part: &str) -> (result: bool)
    ensures
        result == occurs(text@, part@),
{
    let chars = chars_of(text);
    let part = chars_of(part);
    match find_from(&chars, &part, 0) {
        Some(at) => {
            assert(occurs_at(chars@, part@, at as int));
            true
        },
        None => false,
    }
}

/// Whether `text` begins with `prefix`.
pub fn starts_with(text: &str, prefix: &str) -> (result: bool)
    ensures
        result == occurs_at(text@, prefix@, 0),
{
    let chars = chars_of(text);
    let prefix = chars_of(prefix);
    prefix.len() <= chars.len() && matches_at(&chars, &prefix, 0)
}

/// Whether `text` ends with `suffix`.
pub fn ends_with(text: &str, suffix: &str) -> (result: bool)
    ensures
        result == occurs_at(text@, suffix@, text@.len() - suffix@.len()),
{
    let chars = chars_of(text);
    let suffix = chars_of(suffix);
    suffix.len() <= chars.len() && matches_at(&chars, &suffix, chars.len() - suffix.len())
}

/// The character of the decimal digit `value`.
fn digit_char(value: u64) -> (result: char)
    requires
        value < 10,
    ensures
        result == digit(value as int),
{
    (('0' as u8) + (value as u8)) as char
}

/// `value` in decimal digits.
pub fn decimal_text(value: u64) -> (result: String)
    ensures
        result@ == decimal(value as nat),
    decreases value,
{
    if value < 10 {
        let mut text: String = String::new();
        text.push(digit_char(value));
        assert(text@ =~= seq![digit(value as int)]);
        text
    } else {
        let mut text: String = decimal_text(value / 10);
        text.push(digit_char(value % 10));
        text
    }
}

/// `value` in decimal digits, signed.
pub fn signed_decimal_text(value: i64) -> (result: String)
    ensures
        result@ == signed_decimal(value as int),
{
    if value >= 0 {
        decimal_text(value as u64)
    } else {
        let magnitude: u64 = (-(value as i128)) as u64;
        let digits: String = decimal_text(magnitude);
        let mut text: String = String::new();
        text.push('-');
        text.append(digits.as_str());
        assert(text@ =~= seq!['-'] + decimal(magnitude as nat));
        text
    }
}

/// The character of the hexadecimal digit `value`.
fn hex_digit_char(value: u8) -> (result: char)
    requires
        value < 16,
    ensures
        result == hex_digit(value as int),
{
    if value < 10 {
        (('0' as u8) + value) as char
    } else {
        (('a' as u8) + (value - 10)) as char
    }
}

/// The bytes of a text with a line feed behind them.
pub fn line_bytes(text: &str) -> (result: Vec<u8>)
    ensures
        result@ == encode_utf8(text@).push(10u8),
{
    let bytes = text.as_bytes();
    let mut line: Vec<u8> = Vec::new();
    let mut i: usize = 0;
    while i < bytes.len()
        invariant
            0 <= i <= bytes@.len(),
            line@ == bytes@.take(i as int),
        decreases bytes@.len() - i,
    {
        assert(bytes@.take(i + 1) =~= bytes@.take(i as int).push(bytes@[i as int]));
        line.push(bytes[i]);
        i += 1;
    }
    assert(bytes@.take(bytes@.len() as int) =~= bytes@);
    line.push(10u8);
    line
}

/// Two lower-case hexadecimal digits for each byte.
pub fn hex_encode(bytes: &[u8]) -> (result: String)
    ensures
        result@ == hex(bytes@),
{
    let mut text: String = String::new();
    let mut i: usize = 0;
    while i < bytes.len()
        invariant
            0 <= i <= bytes@.len(),
            text@ == hex(bytes@.take(i as int)),
        decreases bytes@.len() - i,
    {
        let byte: u8 = bytes[i];
        let ghost before = text@;
        text.push(hex_digit_char(byte / 16));
        text.push(hex_digit_char(byte % 16));
        proof {
            let next = bytes@.take(i + 1);
            assert(next.len() == i + 1);
            assert forall|j: int| 0 <= j < 2 * (i + 1) implies text@[j] == hex(next)[j] by {
                if j < 2 * i {
                    assert(before[j] == hex(bytes@.take(i as int))[j]);
                    assert(j / 2 < i);
                } else {
                    assert(j / 2 == i);
                }
            }
            assert(text@ =~= hex(next));
        }
        i += 1;
    }
    assert(bytes@.take(bytes@.len() as int) =~= bytes@);
    text
}

/// The two texts one after the other.
pub fn concat2(a: &str, b: &str) -> (result: String)
    ensures
        result@ == a@ + b@,
{
    let mut text: String = a.to_owned();
    text.append(b);
    text
}

/// The three texts one after the other.
pub fn concat3(a: &str, b: &str, c: &str) -> (result: String)
    ensures
        result@ == a@ + b@ + c@,
{
    let mut text: String = a.to_owned();
    text.append(b);
    text.append(c);
    text
}

/// The parts in order, with `separator` between each two.
pub fn join_text(parts: &Vec<String>, separator: &str) -> (result: String)
    ensures
        result@ == join(views(parts@), separator@),
{
    let mut text: String = String::new();
    let mut i: usize = 0;
    while i < parts.len()
        invariant
            0 <= i <= parts@.len(),
            text@ == join(views(parts@).take(i as int), separator@),
        decreases parts@.len() - i,
    {
        if i > 0 {
            text.append(separator);
        }
        text.append(parts[i].as_str());
        proof {
            let all = views(parts@);
            assert(all.take(i + 1).drop_last() =~= all.take(i as int));
            assert(all.take(i + 1).last() == parts@[i as int]@);
            if i == 0 {
                assert(text@ =~= all.take(1)[0]);
            }
        }
        i += 1;
    }
    assert(views(parts@).take(parts@.len() as int) =~= views(parts@));
    text
}

/// Different bytes have different hexadecimal texts.
pub proof fn law_hex_injective(a: Seq<u8>, b: Seq<u8>)
    requires
        hex(a) == hex(b),
    ensures
        a == b,
{
    assert(hex(a).len() == 2 * a.len());
    assert(hex(b).len() == 2 * b.len());
    assert forall|i: int| 0 <= i < a.len() implies a[i] == b[i] by {
        let high = 2 * i;
        let low = 2 * i + 1;
        assert(high / 2 == i && low / 2 == i && high % 2 == 0 && low % 2 == 1);
        assert(hex(a)[high] == hex_digit(a[high / 2] as int / 16));
        assert(hex(b)[high] == hex_digit(b[high / 2] as int / 16));
        assert(hex(a)[low] == hex_digit(a[low / 2] as int % 16));
        assert(hex(b)[low] == hex_digit(b[low / 2] as int % 16));
    }
    assert(a =~= b);
}

} // verus!
