//! JSON values as plain data, read and written through `serde_json`.
use serde_json::Value;
use vstd::prelude::*;
use vstd::utf8::*;

use crate::text;
use crate::text::{decimal_text, same_text, signed_decimal_text};

verus! {

/// A number that is no 64-bit integer, kept as the text in which it is written. Only the reader
/// makes one.
#[derive(Debug)]
pub struct RealText {
    text: String,
}

impl View for RealText {
    type V = Seq<char>;

    closed spec fn view(&self) -> Seq<char> {
        self.text@
    }
}

impl RealText {
    /// The number as it is written.
    pub fn as_str(&self) -> (result: &str)
        ensures
            result@ == self@,
    {
        self.text.as_str()
    }

    fn copy(&self) -> (result: RealText)
        ensures
            result@ == self@,
    {
        RealText { text: self.text.clone() }
    }
}

/// One JSON value.
#[derive(Debug)]
pub enum Json {
    Null,
    Bool(bool),
    /// An integer from zero up.
    Unsigned(u64),
    /// An integer, in use for those below zero.
    Negative(i64),
    Real(RealText),
    Text(String),
    Array(Vec<Json>),
    Object(Vec<JsonMember>),
}

/// One member of a JSON object. Of several members with one name the last counts.
#[derive(Debug)]
pub struct JsonMember {
    pub name: String,
    pub value: Json,
}

/// What a JSON value is.
pub enum JsonView {
    Null,
    Bool(bool),
    Unsigned(u64),
    Negative(i64),
    Real(Seq<char>),
    Text(Seq<char>),
    Array(Seq<JsonView>),
    Object(Map<Seq<char>, JsonView>),
}

pub open spec fn json_view(value: Json) -> JsonView
    decreases value,
{
    match value {
        Json::Null => JsonView::Null,
        Json::Bool(b) => JsonView::Bool(b),
        Json::Unsigned(n) => JsonView::Unsigned(n),
        Json::Negative(n) => if n < 0 {
            JsonView::Negative(n)
        } else {
            JsonView::Unsigned(n as u64)
        },
        Json::Real(number) => JsonView::Real(number@),
        Json::Text(text) => JsonView::Text(text@),
        Json::Array(items) => JsonView::Array(items_view(items@)),
        Json::Object(members) => JsonView::Object(members_view(members@)),
    }
}

/// The views of the items, in order.
pub open spec fn items_view(items: Seq<Json>) -> Seq<JsonView>
    decreases items,
{
    if items.len() == 0 {
        Seq::empty()
    } else {
        items_view(items.drop_last()).push(json_view(items.last()))
    }
}

/// What the members map each name to.
pub open spec fn members_view(members: Seq<JsonMember>) -> Map<Seq<char>, JsonView>
    decreases members,
{
    if members.len() == 0 {
        Map::empty()
    } else {
        members_view(members.drop_last()).insert(
            members.last().name@,
            json_view(members.last().value),
        )
    }
}

impl View for Json {
    type V = JsonView;

    open spec fn view(&self) -> JsonView {
        json_view(*self)
    }
}

/// The member of an object called `name`.
pub open spec fn get(value: JsonView, name: Seq<char>) -> Option<JsonView> {
    match value {
        JsonView::Object(members) => if members.dom().contains(name) {
            Some(members[name])
        } else {
            None
        },
        _ => None,
    }
}

/// The text that a value is.
pub open spec fn as_text(value: Option<JsonView>) -> Option<Seq<char>> {
    match value {
        Some(JsonView::Text(text)) => Some(text),
        _ => None,
    }
}

/// The items of the array that a value is.
pub open spec fn as_items(value: Option<JsonView>) -> Option<Seq<JsonView>> {
    match value {
        Some(JsonView::Array(items)) => Some(items),
        _ => None,
    }
}

/// The value where it is an object.
pub open spec fn as_object(value: Option<JsonView>) -> Option<JsonView> {
    match value {
        Some(JsonView::Object(_)) => value,
        _ => None,
    }
}

/// The integer that a value is, where it fits in 64 signed bits.
pub open spec fn as_integer(value: Option<JsonView>) -> Option<i64> {
    match value {
        Some(JsonView::Unsigned(n)) => if n <= i64::MAX {
            Some(n as i64)
        } else {
            None
        },
        Some(JsonView::Negative(n)) => Some(n),
        _ => None,
    }
}

/// The integer that a value is, where it is not negative.
pub open spec fn as_unsigned(value: Option<JsonView>) -> Option<u64> {
    match value {
        Some(JsonView::Unsigned(n)) => Some(n),
        _ => None,
    }
}

/// The member of an optional object called `name`.
pub open spec fn get_in(value: Option<JsonView>, name: Seq<char>) -> Option<JsonView> {
    match value {
        Some(object) => get(object, name),
        None => None,
    }
}

/// The text member of an optional object called `name`.
pub open spec fn text_in(value: Option<JsonView>, name: Seq<char>) -> Option<Seq<char>> {
    as_text(get_in(value, name))
}

/// How deep arrays and objects nest in `value` is at most `depth`, and no number in it is real.
pub open spec fn shallow(value: JsonView, depth: nat) -> bool
    decreases depth,
{
    match value {
        JsonView::Real(_) => false,
        JsonView::Array(items) => depth > 0 && forall|i: int|
            0 <= i < items.len() ==> shallow(#[trigger] items[i], (depth - 1) as nat),
        JsonView::Object(members) => depth > 0 && forall|name: Seq<char>|
            members.dom().contains(name) ==> shallow(
                #[trigger] members[name],
                (depth - 1) as nat,
            ),
        _ => true,
    }
}

pub proof fn lemma_items_len(items: Seq<Json>)
    ensures
        items_view(items).len() == items.len(),
        forall|i: int| 0 <= i < items.len() ==> #[trigger] items_view(items)[i] == json_view(items[i]),
    decreases items.len(),
{
    if items.len() > 0 {
        lemma_items_len(items.drop_last());
        assert forall|i: int| 0 <= i < items.len() implies #[trigger] items_view(items)[i]
            == json_view(items[i]) by {
            if i < items.len() - 1 {
                assert(items_view(items.drop_last())[i] == json_view(items.drop_last()[i]));
            }
        }
    }
}

pub proof fn lemma_items_push(items: Seq<Json>, item: Json)
    ensures
        items_view(items.push(item)) == items_view(items).push(json_view(item)),
{
    assert(items.push(item).drop_last() =~= items);
}

pub proof fn lemma_members_push(members: Seq<JsonMember>, member: JsonMember)
    ensures
        members_view(members.push(member)) == members_view(members).insert(
            member.name@,
            json_view(member.value),
        ),
{
    assert(members.push(member).drop_last() =~= members);
}

/// A text that stands in JSON as it is: printable ASCII without quotation marks and backslashes.
pub open spec fn plain_text(text: Seq<char>) -> bool {
    forall|i: int|
        0 <= i < text.len() ==> ' ' <= #[trigger] text[i] <= '~' && text[i] != '"' && text[i] != '\\'
}

/// A member of a flat object: an integer or a text.
#[derive(Debug)]
pub struct PlainMember {
    pub name: String,
    pub value: PlainValue,
}

/// The value of a member of a flat object.
#[derive(Debug)]
pub enum PlainValue {
    Unsigned(u64),
    Signed(i64),
    Text(String),
}

/// What the value of a member of a flat object is.
pub open spec fn plain_view(value: PlainValue) -> JsonView {
    match value {
        PlainValue::Unsigned(n) => JsonView::Unsigned(n),
        PlainValue::Signed(n) => if n < 0 {
            JsonView::Negative(n)
        } else {
            JsonView::Unsigned(n as u64)
        },
        PlainValue::Text(text) => JsonView::Text(text@),
    }
}

impl View for PlainMember {
    type V = (Seq<char>, JsonView);

    open spec fn view(&self) -> (Seq<char>, JsonView) {
        (self.name@, plain_view(self.value))
    }
}

/// A member whose name and text stand in JSON as they are.
pub open spec fn plain_member(member: (Seq<char>, JsonView)) -> bool {
    plain_text(member.0) && match member.1 {
        JsonView::Unsigned(_) => true,
        JsonView::Negative(n) => n < 0,
        JsonView::Text(text) => plain_text(text),
        _ => false,
    }
}

/// How a member of a flat object is written.
pub open spec fn plain_member_text(member: (Seq<char>, JsonView)) -> Seq<char> {
    seq!['"'] + member.0 + seq!['"', ':'] + match member.1 {
        JsonView::Unsigned(n) => text::decimal(n as nat),
        JsonView::Negative(n) => text::signed_decimal(n as int),
        JsonView::Text(text) => seq!['"'] + text + seq!['"'],
        _ => Seq::empty(),
    }
}

/// The members of a flat object, with commas between.
pub open spec fn plain_members_text(members: Seq<(Seq<char>, JsonView)>) -> Seq<char>
    decreases members.len(),
{
    if members.len() == 0 {
        Seq::empty()
    } else if members.len() == 1 {
        plain_member_text(members[0])
    } else {
        plain_members_text(members.drop_last()) + seq![','] + plain_member_text(members.last())
    }
}

/// A flat object as it is written, members in order.
pub open spec fn plain_object_text(members: Seq<(Seq<char>, JsonView)>) -> Seq<char> {
    seq!['{'] + plain_members_text(members) + seq!['}']
}

/// The flat object that the members make: of equal names the last counts.
pub open spec fn plain_object(members: Seq<(Seq<char>, JsonView)>) -> Map<Seq<char>, JsonView>
    decreases members.len(),
{
    if members.len() == 0 {
        Map::empty()
    } else {
        plain_object(members.drop_last()).insert(members.last().0, members.last().1)
    }
}

/// Members that a flat object can hold.
pub open spec fn plain_members(members: Seq<(Seq<char>, JsonView)>) -> bool {
    forall|i: int| 0 <= i < members.len() ==> plain_member(#[trigger] members[i])
}

/// Where `bytes` is a flat object as it is written, with a line feed behind it, it reads as that
/// object.
pub open spec fn plain_objects_read_back(
    bytes: Seq<u8>,
    outcome: Result<JsonView, Seq<char>>,
) -> bool {
    forall|members: Seq<(Seq<char>, JsonView)>|
        plain_members(members) && bytes == encode_utf8(#[trigger] plain_object_text(members)).push(
            10u8,
        ) ==> outcome == Ok::<JsonView, Seq<char>>(JsonView::Object(plain_object(members)))
}

/// `serde_json::Value`: a value tree of the outside crate.
#[verifier::external_type_specification]
#[verifier::external_body]
pub struct ExValue(serde_json::Value);

/// What a `serde_json::Value` holds.
pub uninterp spec fn value_view(value: serde_json::Value) -> JsonView;

/// What reading a text as JSON gives: the value, or the text of the error.
pub uninterp spec fn json_of_text(text: Seq<char>) -> Result<JsonView, Seq<char>>;

/// What reading bytes as JSON gives: the value, or the text of the error.
pub uninterp spec fn json_of_bytes(bytes: Seq<u8>) -> Result<JsonView, Seq<char>>;

/// The compact JSON text of a value.
pub uninterp spec fn json_text(value: JsonView) -> Seq<char>;

/// Whether reading the bytes as JSON gives the value.
pub open spec fn reads_as(bytes: Seq<u8>, value: JsonView) -> bool {
    json_of_bytes(bytes) == Ok::<JsonView, Seq<char>>(value)
}

/// What came of reading JSON: the value, or the text of the error.
pub open spec fn outcome(result: Result<serde_json::Value, String>) -> Result<JsonView, Seq<char>> {
    match result {
        Ok(value) => Ok(value_view(value)),
        Err(error) => Err(error@),
    }
}

/// Takes a `serde_json::Value` apart, variant by variant. The outside value holds exactly what
/// comes out.
#[verifier::external_body]
fn outside_take(value: serde_json::Value) -> (result: Json)
    ensures
        result@ == value_view(value),
{
    match value {
        Value::Null => Json::Null,
        Value::Bool(b) => Json::Bool(b),
        Value::Number(n) => match (n.as_u64(), n.as_i64()) {
            (Some(n), _) => Json::Unsigned(n),
            (None, Some(n)) => Json::Negative(n),
            (None, None) => Json::Real(RealText { text: n.to_string() }),
        },
        Value::String(text) => Json::Text(text),
        Value::Array(items) => Json::Array(items.into_iter().map(outside_take).collect()),
        Value::Object(map) => Json::Object(map.into_iter().map(|(name, value)|
            JsonMember { name, value: outside_take(value) }).collect()),
    }
}

/// Makes the `serde_json::Value` that holds what `value` is: of equal names the last stays, as
/// `serde_json::Map` keeps one value for each name. A real number is read back from its text.
#[verifier::external_body]
fn outside_make(value: &Json) -> (result: serde_json::Value)
    ensures
        value_view(result) == value@,
{
    match value {
        Json::Null => Value::Null,
        Json::Bool(b) => Value::Bool(*b),
        Json::Unsigned(n) => Value::from(*n),
        Json::Negative(n) => Value::from(*n),
        Json::Real(number) => serde_json::from_str(number.as_str()).unwrap(),
        Json::Text(text) => Value::String(text.clone()),
        Json::Array(items) => Value::Array(items.iter().map(outside_make).collect()),
        Json::Object(members) => Value::Object(members.iter().map(|member|
            (member.name.clone(), outside_make(&member.value))).collect()),
    }
}

/// `serde_json::from_str` for `serde_json::Value`. The grammar and the error texts are named, not
/// described.
#[verifier::external_body]
fn outside_from_str(text: &str) -> (result: Result<serde_json::Value, String>)
    ensures
        outcome(result) == json_of_text(text@),
{
    serde_json::from_str(text).map_err(|error| error.to_string())
}

/// `serde_json::from_slice` for `serde_json::Value`. The grammar and the error texts are named,
/// not described, but for flat objects of integers and plain texts written without white space:
/// such an object reads as the map of its members.
#[verifier::external_body]
fn outside_from_slice(bytes: &[u8]) -> (result: Result<serde_json::Value, String>)
    ensures
        outcome(result) == json_of_bytes(bytes@),
        plain_objects_read_back(bytes@, outcome(result)),
{
    serde_json::from_slice(bytes).map_err(|error| error.to_string())
}

/// `Display` of `serde_json::Value`, which writes the value as compact JSON. The text depends on
/// what the value holds alone. Where the value nests less than the reader's limit of 128 and
/// holds no real number, reading the bytes of the text gives the value back, also with a line
/// feed behind them.
#[verifier::external_body]
fn outside_to_string(value: &serde_json::Value) -> (result: String)
    ensures
        result@ == json_text(value_view(*value)),
        shallow(value_view(*value), 127) ==> reads_as(encode_utf8(result@), value_view(*value)),
        shallow(value_view(*value), 127) ==> reads_as(encode_utf8(result@).push(10u8), value_view(*value)),
{
    value.to_string()
}

/// Reads a text as JSON.
pub fn parse_text(source: &str) -> (result: Result<Json, String>)
    ensures
        json_of_text(source@) == (match result {
            Ok(value) => Ok::<JsonView, Seq<char>>(value@),
            Err(error) => Err(error@),
        }),
{
    match outside_from_str(source) {
        Ok(value) => Ok(outside_take(value)),
        Err(error) => Err(error),
    }
}

/// Reads bytes as JSON.
pub fn parse_bytes(bytes: &[u8]) -> (result: Result<Json, String>)
    ensures
        json_of_bytes(bytes@) == (match result {
            Ok(value) => Ok::<JsonView, Seq<char>>(value@),
            Err(error) => Err(error@),
        }),
        plain_objects_read_back(bytes@, json_of_bytes(bytes@)),
{
    match outside_from_slice(bytes) {
        Ok(value) => Ok(outside_take(value)),
        Err(error) => Err(error),
    }
}

fn write_plain_member(line: &mut String, member: &PlainMember)
    ensures
        final(line)@ == old(line)@ + plain_member_text(member@),
{
    let ghost start = line@;
    line.push('"');
    line.append(member.name.as_str());
    line.push('"');
    line.push(':');
    let ghost head = line@;
    assert(head =~= start + (seq!['"'] + member.name@ + seq!['"', ':']));
    match &member.value {
        PlainValue::Unsigned(n) => {
            line.append(decimal_text(*n).as_str());
        },
        PlainValue::Signed(n) => {
            line.append(signed_decimal_text(*n).as_str());
        },
        PlainValue::Text(text) => {
            line.push('"');
            line.append(text.as_str());
            line.push('"');
            assert(line@ =~= head + (seq!['"'] + text@ + seq!['"']));
        },
    }
    assert(line@ =~= start + plain_member_text(member@));
}

/// Writes a flat object, members in order, with a line feed behind it.
pub fn write_plain_object(members: &Vec<PlainMember>) -> (result: Vec<u8>)
    ensures
        result@ == encode_utf8(plain_object_text(text::views(members@))).push(10u8),
{
    let ghost all = text::views(members@);
    let mut line: String = String::new();
    line.push('{');
    let mut i: usize = 0;
    assert(all.take(0) =~= Seq::empty());
    assert(line@ =~= seq!['{'] + plain_members_text(all.take(0)));
    while i < members.len()
        invariant
            0 <= i <= members@.len(),
            all == text::views(members@),
            line@ == seq!['{'] + plain_members_text(all.take(i as int)),
        decreases members@.len() - i,
    {
        let ghost before = line@;
        if i > 0 {
            line.push(',');
        }
        write_plain_member(&mut line, &members[i]);
        proof {
            let taken = all.take(i + 1);
            assert(taken.drop_last() =~= all.take(i as int));
            assert(taken.last() == members@[i as int]@);
            assert(line@ =~= seq!['{'] + plain_members_text(taken));
        }
        i += 1;
    }
    assert(all.take(members@.len() as int) =~= all);
    line.push('}');
    assert(line@ =~= plain_object_text(all));
    text::line_bytes(line.as_str())
}

impl Json {
    /// The value as compact JSON.
    pub fn to_text(&self) -> (result: String)
        ensures
            result@ == json_text(self@),
            shallow(self@, 127) ==> reads_as(encode_utf8(result@), self@),
            shallow(self@, 127) ==> reads_as(encode_utf8(result@).push(10u8), self@),
    {
        let value = outside_make(self);
        outside_to_string(&value)
    }

    /// The text that the value is.
    pub fn as_str(&self) -> (result: Option<&str>)
        ensures
            text::view_option(result) == as_text(Some(self@)),
    {
        match self {
            Json::Text(text) => Some(text.as_str()),
            _ => None,
        }
    }

    /// The truth value that the value is.
    pub fn as_bool(&self) -> (result: Option<bool>)
        ensures
            result == (match self@ {
                JsonView::Bool(b) => Some(b),
                _ => None::<bool>,
            }),
    {
        match self {
            Json::Bool(b) => Some(*b),
            _ => None,
        }
    }

    /// The integer that the value is, where it fits in 64 signed bits.
    pub fn as_i64(&self) -> (result: Option<i64>)
        ensures
            result == as_integer(Some(self@)),
    {
        match self {
            Json::Unsigned(n) => if *n <= i64::MAX as u64 {
                Some(*n as i64)
            } else {
                None
            },
            Json::Negative(n) => Some(*n),
            _ => None,
        }
    }

    /// The integer that the value is, where it is not negative.
    pub fn as_u64(&self) -> (result: Option<u64>)
        ensures
            result == as_unsigned(Some(self@)),
    {
        match self {
            Json::Unsigned(n) => Some(*n),
            Json::Negative(n) => if *n >= 0 {
                Some(*n as u64)
            } else {
                None
            },
            _ => None,
        }
    }

    /// The member of an object called `name`.
    pub fn get(&self, name: &str) -> (result: Option<&Json>)
        ensures
            (match result {
                Some(value) => Some(value@),
                None => None,
            }) == get(self@, name@),
    {
        match self {
            Json::Object(members) => match find_member(members, name) {
                Some(i) => Some(&members[i].value),
                None => None,
            },
            _ => None,
        }
    }

    /// A value equal to this one.
    pub fn copy(&self) -> (result: Json)
        ensures
            result@ == self@,
        decreases self,
    {
        match self {
            Json::Null => Json::Null,
            Json::Bool(b) => Json::Bool(*b),
            Json::Unsigned(n) => Json::Unsigned(*n),
            Json::Negative(n) => Json::Negative(*n),
            Json::Real(number) => Json::Real(number.copy()),
            Json::Text(text) => Json::Text(text.clone()),
            Json::Array(items) => Json::Array(copy_items(items)),
            Json::Object(members) => Json::Object(copy_members(members)),
        }
    }
}

/// The member of an optional object called `name`.
pub fn member_of<'a>(value: Option<&'a Json>, name: &str) -> (result: Option<&'a Json>)
    ensures
        text::view_option(result) == get_in(text::view_option(value), name@),
{
    match value {
        Some(object) => object.get(name),
        None => None,
    }
}

/// The text member of an optional object called `name`.
pub fn text_member<'a>(value: Option<&'a Json>, name: &str) -> (result: Option<&'a str>)
    ensures
        text::view_option(result) == text_in(text::view_option(value), name@),
{
    match member_of(value, name) {
        Some(member) => member.as_str(),
        None => None,
    }
}

/// The member of an optional object called `name`, where it is itself an object.
pub fn object_member<'a>(value: Option<&'a Json>, name: &str) -> (result: Option<&'a Json>)
    ensures
        text::view_option(result) == as_object(get_in(text::view_option(value), name@)),
{
    match member_of(value, name) {
        Some(member) => match member {
            Json::Object(_) => Some(member),
            _ => None,
        },
        None => None,
    }
}

/// Items equal to these.
pub fn copy_items(items: &Vec<Json>) -> (result: Vec<Json>)
    ensures
        items_view(result@) == items_view(items@),
    decreases items,
{
    let mut copied: Vec<Json> = Vec::new();
    let mut i: usize = 0;
    while i < items.len()
        invariant
            0 <= i <= items@.len(),
            items_view(copied@) == items_view(items@.take(i as int)),
        decreases items@.len() - i,
    {
        assert(decreases_to!(items => items@));
        assert(decreases_to!(items@ => items@[i as int]));
        let item = items[i].copy();
        proof {
            lemma_items_push(copied@, item);
            lemma_items_push(items@.take(i as int), items@[i as int]);
            assert(items@.take(i + 1) =~= items@.take(i as int).push(items@[i as int]));
        }
        copied.push(item);
        i += 1;
    }
    assert(items@.take(items@.len() as int) =~= items@);
    copied
}

/// Members equal to these.
fn copy_members(members: &Vec<JsonMember>) -> (result: Vec<JsonMember>)
    ensures
        members_view(result@) == members_view(members@),
    decreases members,
{
    let mut copied: Vec<JsonMember> = Vec::new();
    let mut i: usize = 0;
    while i < members.len()
        invariant
            0 <= i <= members@.len(),
            members_view(copied@) == members_view(members@.take(i as int)),
        decreases members@.len() - i,
    {
        assert(decreases_to!(members => members@));
        assert(decreases_to!(members@ => members@[i as int]));
        assert(decreases_to!(members@[i as int] => members@[i as int].value));
        let member = JsonMember {
            name: members[i].name.clone(),
            value: members[i].value.copy(),
        };
        proof {
            lemma_members_push(copied@, member);
            lemma_members_push(members@.take(i as int), members@[i as int]);
            assert(members@.take(i + 1) =~= members@.take(i as int).push(members@[i as int]));
        }
        copied.push(member);
        i += 1;
    }
    assert(members@.take(members@.len() as int) =~= members@);
    copied
}

/// The position of the last member called `name`.
fn find_member(members: &Vec<JsonMember>, name: &str) -> (result: Option<usize>)
    ensures
        match result {
            Some(i) => {
                &&& i < members@.len()
                &&& members@[i as int].name@ == name@
                &&& members_view(members@).dom().contains(name@)
                &&& members_view(members@)[name@] == json_view(members@[i as int].value)
            },
            None => !members_view(members@).dom().contains(name@),
        },
{
    let mut i: usize = members.len();
    assert(members@.take(members@.len() as int) =~= members@);
    while i > 0
        invariant
            i <= members@.len(),
            members_view(members@).dom().contains(name@) == members_view(
                members@.take(i as int),
            ).dom().contains(name@),
            members_view(members@).dom().contains(name@) ==> members_view(members@)[name@]
                == members_view(members@.take(i as int))[name@],
        decreases i,
    {
        i -= 1;
        proof {
            lemma_members_push(members@.take(i as int), members@[i as int]);
            assert(members@.take(i + 1) =~= members@.take(i as int).push(members@[i as int]));
        }
        if same_text(members[i].name.as_str(), name) {
            return Some(i);
        }
    }
    assert(members@.take(0) =~= Seq::empty());
    None
}

pub proof fn lemma_members_named(members: Seq<JsonMember>)
    ensures
        forall|name: Seq<char>|
            #[trigger] members_view(members).dom().contains(name) <==> exists|i: int|
                0 <= i < members.len() && (#[trigger] members[i]).name@ == name,
    decreases members.len(),
{
    if members.len() > 0 {
        let rest = members.drop_last();
        lemma_members_named(rest);
        assert forall|name: Seq<char>|
            #[trigger] members_view(members).dom().contains(name) <==> exists|i: int|
                0 <= i < members.len() && (#[trigger] members[i]).name@ == name by {
            if members_view(members).dom().contains(name) {
                if members.last().name@ == name {
                    assert(members[members.len() - 1].name@ == name);
                } else {
                    assert(members_view(rest).dom().contains(name));
                    let i = choose|i: int| 0 <= i < rest.len() && (#[trigger] rest[i]).name@ == name;
                    assert(members[i].name@ == name);
                }
            }
            if exists|i: int| 0 <= i < members.len() && (#[trigger] members[i]).name@ == name {
                let i = choose|i: int|
                    0 <= i < members.len() && (#[trigger] members[i]).name@ == name;
                if i < rest.len() {
                    assert(rest[i].name@ == name);
                    assert(members_view(rest).dom().contains(name));
                }
            }
        }
    }
}

impl Json {
    /// Whether two values are equal: arrays item by item, objects name by name.
    pub fn same(&self, other: &Json) -> (result: bool)
        ensures
            result == (self@ == other@),
        decreases self,
    {
        match (self, other) {
            (Json::Null, Json::Null) => true,
            (Json::Bool(a), Json::Bool(b)) => *a == *b,
            (Json::Unsigned(a), Json::Unsigned(b)) => *a == *b,
            (Json::Unsigned(a), Json::Negative(b)) => *b >= 0 && *a == *b as u64,
            (Json::Negative(a), Json::Unsigned(b)) => *a >= 0 && *a as u64 == *b,
            (Json::Negative(a), Json::Negative(b)) => *a == *b,
            (Json::Real(a), Json::Real(b)) => same_text(a.as_str(), b.as_str()),
            (Json::Text(a), Json::Text(b)) => same_text(a.as_str(), b.as_str()),
            (Json::Array(a), Json::Array(b)) => same_items(a, b),
            (Json::Object(a), Json::Object(b)) => same_members(a, b),
            _ => false,
        }
    }
}

fn same_items(a: &Vec<Json>, b: &Vec<Json>) -> (result: bool)
    ensures
        result == (items_view(a@) == items_view(b@)),
    decreases a,
{
    proof {
        lemma_items_len(a@);
        lemma_items_len(b@);
    }
    if a.len() != b.len() {
        return false;
    }
    let mut i: usize = 0;
    while i < a.len()
        invariant
            0 <= i <= a@.len(),
            a@.len() == b@.len(),
            items_view(a@).len() == a@.len(),
            items_view(b@).len() == b@.len(),
            forall|j: int| 0 <= j < a@.len() ==> #[trigger] items_view(a@)[j] == json_view(a@[j]),
            forall|j: int| 0 <= j < b@.len() ==> #[trigger] items_view(b@)[j] == json_view(b@[j]),
            forall|j: int| 0 <= j < i ==> #[trigger] items_view(a@)[j] == items_view(b@)[j],
        decreases a@.len() - i,
    {
        assert(decreases_to!(a => a@));
        assert(decreases_to!(a@ => a@[i as int]));
        if !a[i].same(&b[i]) {
            assert(items_view(a@)[i as int] != items_view(b@)[i as int]);
            return false;
        }
        i += 1;
    }
    assert(items_view(a@) =~= items_view(b@));
    true
}

fn same_members(a: &Vec<JsonMember>, b: &Vec<JsonMember>) -> (result: bool)
    ensures
        result == (members_view(a@) == members_view(b@)),
    decreases a,
{
    let ghost x = members_view(a@);
    let ghost y = members_view(b@);
    proof {
        lemma_members_named(a@);
        lemma_members_named(b@);
    }
    let mut i: usize = 0;
    while i < a.len()
        invariant
            0 <= i <= a@.len(),
            x == members_view(a@),
            y == members_view(b@),
            forall|j: int| 0 <= j < i ==> y.dom().contains((#[trigger] a@[j]).name@) && y[a@[j].name@]
                == x[a@[j].name@],
        decreases a@.len() - i,
    {
        assert(decreases_to!(a => a@));
        let at = find_member(a, a[i].name.as_str());
        let there = find_member(b, a[i].name.as_str());
        proof {
            lemma_members_named(a@);
            assert(a@[i as int].name@ == a@[i as int].name@);
            assert(x.dom().contains(a@[i as int].name@));
        }
        match (at, there) {
            (Some(k), Some(j)) => {
                assert(decreases_to!(a@ => a@[k as int]));
                assert(decreases_to!(a@[k as int] => a@[k as int].value));
                if !a[k].value.same(&b[j].value) {
                    return false;
                }
            },
            _ => {
                return false;
            },
        }
        i += 1;
    }
    let mut i: usize = 0;
    while i < b.len()
        invariant
            0 <= i <= b@.len(),
            x == members_view(a@),
            y == members_view(b@),
            forall|j: int| 0 <= j < i ==> x.dom().contains((#[trigger] b@[j]).name@),
        decreases b@.len() - i,
    {
        if find_member(a, b[i].name.as_str()).is_none() {
            proof {
                lemma_members_named(b@);
                assert(b@[i as int].name@ == b@[i as int].name@);
                assert(y.dom().contains(b@[i as int].name@));
            }
            return false;
        }
        i += 1;
    }
    assert(x =~= y);
    true
}

/// A JSON object in the making.
#[derive(Debug)]
pub struct JsonObject {
    members: Vec<JsonMember>,
}

impl View for JsonObject {
    type V = Map<Seq<char>, JsonView>;

    closed spec fn view(&self) -> Map<Seq<char>, JsonView> {
        members_view(self.members@)
    }
}

impl JsonObject {
    /// An object with no members.
    pub fn new() -> (result: JsonObject)
        ensures
            result@ == Map::<Seq<char>, JsonView>::empty(),
    {
        JsonObject { members: Vec::new() }
    }

    /// The members of a value that is an object.
    pub fn of(value: &Json) -> (result: Option<JsonObject>)
        ensures
            match (result, value@) {
                (Some(object), JsonView::Object(members)) => object@ == members,
                (None, JsonView::Object(_)) => false,
                (Some(_), _) => false,
                (None, _) => true,
            },
    {
        match value {
            Json::Object(members) => Some(JsonObject { members: copy_members(members) }),
            _ => None,
        }
    }

    /// The object with the member called `name` set to `value`.
    pub fn with(self, name: &str, value: Json) -> (result: JsonObject)
        ensures
            result@ == self@.insert(name@, value@),
    {
        let mut members = self.members;
        let member = JsonMember { name: name.to_owned(), value };
        proof {
            lemma_members_push(members@, member);
        }
        members.push(member);
        JsonObject { members }
    }

    /// The object with the member called `name` set to a text.
    pub fn with_text(self, name: &str, value: &str) -> (result: JsonObject)
        ensures
            result@ == self@.insert(name@, JsonView::Text(value@)),
    {
        self.with(name, Json::Text(value.to_owned()))
    }

    /// The object with the member called `name` set to a number.
    pub fn with_number(self, name: &str, value: u64) -> (result: JsonObject)
        ensures
            result@ == self@.insert(name@, JsonView::Unsigned(value)),
    {
        self.with(name, Json::Unsigned(value))
    }

    /// The object without the members called `name`.
    pub fn without(self, name: &str) -> (result: JsonObject)
        ensures
            result@ == self@.remove(name@),
    {
        let mut kept: Vec<JsonMember> = Vec::new();
        let all = self.members;
        let mut i: usize = 0;
        assert(members_view(all@.take(0)).remove(name@) =~= Map::empty());
        while i < all.len()
            invariant
                0 <= i <= all@.len(),
                members_view(kept@) == members_view(all@.take(i as int)).remove(name@),
            decreases all@.len() - i,
        {
            let ghost before = members_view(all@.take(i as int));
            proof {
                assert(all@.take(i + 1) =~= all@.take(i as int).push(all@[i as int]));
                lemma_members_push(all@.take(i as int), all@[i as int]);
            }
            if same_text(all[i].name.as_str(), name) {
                assert(members_view(all@.take(i + 1)).remove(name@) =~= before.remove(name@));
            } else {
                let member = JsonMember { name: all[i].name.clone(), value: all[i].value.copy() };
                proof {
                    lemma_members_push(kept@, member);
                    assert(members_view(all@.take(i + 1)).remove(name@) =~= before.remove(
                        name@,
                    ).insert(member.name@, json_view(member.value)));
                }
                kept.push(member);
            }
            i += 1;
        }
        assert(all@.take(all@.len() as int) =~= all@);
        JsonObject { members: kept }
    }

    /// The object as a value.
    pub fn finish(self) -> (result: Json)
        ensures
            result@ == JsonView::Object(self@),
    {
        Json::Object(self.members)
    }
}

} // verus!
