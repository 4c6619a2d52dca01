//! 128-bit identifiers in the UUID text and byte forms.
use crate::text;
use vstd::prelude::*;

verus! {

/// A 128-bit identifier, held as its big-endian number.
#[derive(Clone, Copy, Debug, Eq, Hash, PartialEq, Structural)]
pub struct Uuid {
    pub value: u128,
}

/// The number that `bytes` spell, the most significant byte first.
pub open spec fn big_endian(bytes: Seq<u8>) -> nat
    decreases bytes.len(),
{
    if bytes.len() == 0 {
        0
    } else {
        256 * big_endian(bytes.drop_last()) + bytes.last() as nat
    }
}

/// The last `count` hexadecimal digits of `value`, in lower case.
pub open spec fn hex_digits(value: nat, count: nat) -> Seq<char>
    decreases count,
{
    if count == 0 {
        Seq::empty()
    } else {
        hex_digits(value / 16, (count - 1) as nat).push(text::hex_digit((value % 16) as int))
    }
}

/// The value of a hexadecimal digit in either case.
pub open spec fn hex_digit_value(c: char) -> Option<nat> {
    if '0' <= c && c <= '9' {
        Some((c as u32 - '0' as u32) as nat)
    } else if 'a' <= c && c <= 'f' {
        Some((c as u32 - 'a' as u32 + 10) as nat)
    } else if 'A' <= c && c <= 'F' {
        Some((c as u32 - 'A' as u32 + 10) as nat)
    } else {
        None
    }
}

/// The number that hexadecimal digits spell, where each character is one.
pub open spec fn hex_number(digits: Seq<char>) -> Option<nat>
    decreases digits.len(),
{
    if digits.len() == 0 {
        Some(0)
    } else {
        match (hex_number(digits.drop_last()), hex_digit_value(digits.last())) {
            (Some(high), Some(low)) => Some(16 * high + low),
            _ => None,
        }
    }
}

/// Groups of 8, 4, 4, 4 and 12 digits with a hyphen between each two.
pub open spec fn hyphenate(digits: Seq<char>) -> Seq<char> {
    digits.subrange(0, 8) + seq!['-'] + digits.subrange(8, 12) + seq!['-'] + digits.subrange(12, 16)
        + seq!['-'] + digits.subrange(16, 20) + seq!['-'] + digits.subrange(20, 32)
}

/// The digits of a text of hyphenated groups.
pub open spec fn unhyphenate(text: Seq<char>) -> Option<Seq<char>> {
    if text.len() == 36 && text[8] == '-' && text[13] == '-' && text[18] == '-' && text[23] == '-' {
        Some(
            text.subrange(0, 8) + text.subrange(9, 13) + text.subrange(14, 18) + text.subrange(
                19,
                23,
            ) + text.subrange(24, 36),
        )
    } else {
        None
    }
}

/// `c` with an ASCII upper-case letter put into lower case.
pub open spec fn ascii_lower(c: char) -> char {
    if 'A' <= c && c <= 'Z' {
        (c as u32 + 32) as char
    } else {
        c
    }
}

/// The 32 digits of an identifier text: bare, hyphenated, in braces, or behind `urn:uuid:` in any
/// letter case.
pub open spec fn uuid_digits(text: Seq<char>) -> Option<Seq<char>> {
    if text.len() == 32 {
        Some(text)
    } else if text.len() == 36 {
        unhyphenate(text)
    } else if text.len() == 38 && text[0] == '{' && text[37] == '}' {
        unhyphenate(text.subrange(1, 37))
    } else if text.len() == 45 && text.subrange(0, 9).map_values(|c: char| ascii_lower(c))
        == seq!['u', 'r', 'n', ':', 'u', 'u', 'i', 'd', ':'] {
        unhyphenate(text.subrange(9, 45))
    } else {
        None
    }
}

/// The number of the identifier that `text` writes.
pub open spec fn uuid_number(text: Seq<char>) -> Option<nat> {
    match uuid_digits(text) {
        Some(digits) => hex_number(digits),
        None => None,
    }
}

/// The hyphenated lower-case text of an identifier.
pub open spec fn uuid_text(id: Uuid) -> Seq<char> {
    hyphenate(hex_digits(id.value as nat, 32))
}

/// The version and variant bits of a random identifier.
pub open spec fn is_random_form(value: u128) -> bool {
    &&& (value / 0x1000_0000_0000_0000_0000) % 16 == 4
    &&& (value / 0x4000_0000_0000_0000) % 4 == 2
}

/// The text of the error that `uuid::Uuid::parse_str` returns for `text`.
pub uninterp spec fn uuid_parse_error(text: Seq<char>) -> Seq<char>;

/// `uuid::Uuid::new_v4`: a random number with the version and variant bits of a random
/// identifier set. Nothing is said of the other bits.
#[verifier::external_body]
fn outside_new_v4() -> (result: u128)
    ensures
        is_random_form(result),
{
    uuid::Uuid::new_v4().as_u128()
}

/// `uuid::Uuid::parse_str`: accepts the bare, hyphenated, braced and URN forms with hexadecimal
/// digits in either case. The error's text is named, not described.
#[verifier::external_body]
fn outside_parse_str(text: &str) -> (result: Result<u128, String>)
    ensures
        match result {
            Ok(value) => uuid_number(text@) == Some(value as nat),
            Err(error) => uuid_number(text@) is None && error@ == uuid_parse_error(text@),
        },
{
    match uuid::Uuid::parse_str(text) {
        Ok(id) => Ok(id.as_u128()),
        Err(error) => Err(error.to_string()),
    }
}

/// `uuid::Uuid::from_slice`: succeeds on 16 bytes, taken as a big-endian number.
#[verifier::external_body]
fn outside_from_slice(bytes: &[u8]) -> (result: Option<u128>)
    ensures
        match result {
            Some(value) => bytes@.len() == 16 && value as nat == big_endian(bytes@),
            None => bytes@.len() != 16,
        },
{
    match uuid::Uuid::from_slice(bytes) {
        Ok(id) => Some(id.as_u128()),
        Err(_) => None,
    }
}

/// `uuid::Uuid::as_bytes`: the 16 bytes of the number, the most significant first.
#[verifier::external_body]
fn outside_as_bytes(value: u128) -> (result: Vec<u8>)
    ensures
        result@.len() == 16,
        big_endian(result@) == value as nat,
{
    uuid::Uuid::from_u128(value).as_bytes().to_vec()
}

/// `Display` of `uuid::Uuid`: 32 lower-case digits in hyphenated groups.
#[verifier::external_body]
fn outside_display(value: u128) -> (result: String)
    ensures
        result@ == hyphenate(hex_digits(value as nat, 32)),
{
    uuid::Uuid::from_u128(value).to_string()
}

impl Uuid {
    /// The identifier whose number is zero.
    pub fn nil() -> (result: Uuid)
        ensures
            result.value == 0,
    {
        Uuid { value: 0 }
    }

    /// The identifier with this number.
    pub fn from_u128(value: u128) -> (result: Uuid)
        ensures
            result.value == value,
    {
        Uuid { value }
    }

    /// The number of the identifier.
    pub fn as_u128(self) -> (result: u128)
        ensures
            result == self.value,
    {
        self.value
    }

    /// A fresh random identifier. Two calls may give any two values of this form.
    pub fn new_v4() -> (result: Uuid)
        ensures
            is_random_form(result.value),
    {
        Uuid { value: outside_new_v4() }
    }

    /// Reads an identifier text.
    pub fn parse_str(text: &str) -> (result: Result<Uuid, String>)
        ensures
            match result {
                Ok(id) => uuid_number(text@) == Some(id.value as nat),
                Err(error) => uuid_number(text@) is None && error@ == uuid_parse_error(text@),
            },
    {
        match outside_parse_str(text) {
            Ok(value) => Ok(Uuid { value }),
            Err(error) => Err(error),
        }
    }

    /// The identifier that 16 bytes spell; no other length is one.
    pub fn from_slice(bytes: &[u8]) -> (result: Option<Uuid>)
        ensures
            match result {
                Some(id) => bytes@.len() == 16 && id.value as nat == big_endian(bytes@),
                None => bytes@.len() != 16,
            },
    {
        match outside_from_slice(bytes) {
            Some(value) => Some(Uuid { value }),
            None => None,
        }
    }

    /// The 16 bytes of the identifier.
    pub fn to_bytes(self) -> (result: Vec<u8>)
        ensures
            result@.len() == 16,
            big_endian(result@) == self.value as nat,
    {
        outside_as_bytes(self.value)
    }

    /// The hyphenated lower-case text.
    pub fn to_text(self) -> (result: String)
        ensures
            result@ == uuid_text(self),
    {
        outside_display(self.value)
    }
}

proof fn lemma_hex_digit_value(value: nat)
    requires
        value < 16,
    ensures
        hex_digit_value(text::hex_digit(value as int)) == Some(value),
{
}

proof fn lemma_hex_digits_len(value: nat, count: nat)
    ensures
        hex_digits(value, count).len() == count,
    decreases count,
{
    if count > 0 {
        lemma_hex_digits_len(value / 16, (count - 1) as nat);
    }
}

/// 16 to the power `count`.
pub open spec fn pow16(count: nat) -> nat
    decreases count,
{
    if count == 0 {
        1
    } else {
        16 * pow16((count - 1) as nat)
    }
}

proof fn lemma_hex_number(value: nat, count: nat)
    requires
        value < pow16(count),
    ensures
        hex_number(hex_digits(value, count)) == Some(value),
    decreases count,
{
    if count > 0 {
        assert(value / 16 < pow16((count - 1) as nat)) by (nonlinear_arith)
            requires
                value < 16 * pow16((count - 1) as nat),
        ;
        lemma_hex_number(value / 16, (count - 1) as nat);
        lemma_hex_digit_value(value % 16);
        let digits = hex_digits(value, count);
        assert(digits.drop_last() =~= hex_digits(value / 16, (count - 1) as nat));
    }
}

/// Reading the text of an identifier gives the identifier back.
pub proof fn law_uuid_text_reads_back(id: Uuid)
    ensures
        uuid_number(uuid_text(id)) == Some(id.value as nat),
        uuid_text(id).len() == 36,
{
    let digits = hex_digits(id.value as nat, 32);
    lemma_hex_digits_len(id.value as nat, 32);
    assert(pow16(32) == 0x1_0000_0000_0000_0000_0000_0000_0000_0000) by {
        reveal_with_fuel(pow16, 33);
    }
    lemma_hex_number(id.value as nat, 32);
    let text = hyphenate(digits);
    assert(text.len() == 36);
    assert(unhyphenate(text) == Some(digits)) by {
        assert(text.subrange(0, 8) + text.subrange(9, 13) + text.subrange(14, 18) + text.subrange(
            19,
            23,
        ) + text.subrange(24, 36) =~= digits);
    }
}

/// Distinct identifiers have distinct texts.
pub proof fn law_uuid_text_injective(a: Uuid, b: Uuid)
    requires
        uuid_text(a) == uuid_text(b),
    ensures
        a == b,
{
    law_uuid_text_reads_back(a);
    law_uuid_text_reads_back(b);
}

/// Two byte strings of one length that spell the same number are the same.
pub proof fn law_big_endian_injective(a: Seq<u8>, b: Seq<u8>)
    requires
        a.len() == b.len(),
        big_endian(a) == big_endian(b),
    ensures
        a == b,
    decreases a.len(),
{
    if a.len() > 0 {
        law_big_endian_injective(a.drop_last(), b.drop_last());
        assert(a =~= a.drop_last().push(a.last()));
        assert(b =~= b.drop_last().push(b.last()));
    } else {
        assert(a =~= b);
    }
}

} // verus!
